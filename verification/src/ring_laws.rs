//! Laws that need the arithmetic to be a (commutative) semiring: applying a
//! product of gates, applying a Kronecker product to a product state, and
//! the total probability of a product state.
//!
//! The semiring laws are premises over all values, each held in an opaque
//! predicate and used one instance at a time through a `use_*` lemma.
use vstd::prelude::*;

use crate::gates::{h_matrix, qft_two_matrix};
use crate::matrix::{column, kron, mat_apply, mat_mul};
use crate::scalar::{dot, lemma_dot_single_term, op1, op2, unit_on};
use crate::state::{basis_vector, product_state, sum_norms};

verus! {

/// `f` is associative.
#[verifier::opaque]
pub open spec fn associative<T, F: Fn(T, T) -> T>(f: F) -> bool {
    forall|x: T, y: T, z: T| #[trigger] op2(f, op2(f, x, y), z) == op2(f, x, op2(f, y, z))
}

/// `f` is commutative.
#[verifier::opaque]
pub open spec fn commutative<T, F: Fn(T, T) -> T>(f: F) -> bool {
    forall|x: T, y: T| #[trigger] op2(f, x, y) == op2(f, y, x)
}

/// `e` is a left identity of `f`.
#[verifier::opaque]
pub open spec fn left_identity<T, F: Fn(T, T) -> T>(f: F, e: T) -> bool {
    forall|x: T| #[trigger] op2(f, e, x) == x
}

/// `zero` annihilates `times` on both sides.
#[verifier::opaque]
pub open spec fn annihilates<T, M: Fn(T, T) -> T>(times: M, zero: T) -> bool {
    &&& forall|x: T| #[trigger] op2(times, zero, x) == zero
    &&& forall|x: T| #[trigger] op2(times, x, zero) == zero
}

/// `times` distributes over `plus` on both sides.
#[verifier::opaque]
pub open spec fn distributive<T, P: Fn(T, T) -> T, M: Fn(T, T) -> T>(plus: P, times: M) -> bool {
    &&& forall|x: T, y: T, z: T|
        #[trigger] op2(times, x, op2(plus, y, z)) == op2(plus, op2(times, x, y), op2(times, x, z))
    &&& forall|x: T, y: T, z: T|
        #[trigger] op2(times, op2(plus, x, y), z) == op2(plus, op2(times, x, z), op2(times, y, z))
}

/// `plus`, `times` and `zero` form a semiring (`plus` commutative).
pub open spec fn semiring<T, P: Fn(T, T) -> T, M: Fn(T, T) -> T>(
    plus: P,
    times: M,
    zero: T,
) -> bool {
    &&& associative(plus)
    &&& commutative(plus)
    &&& left_identity(plus, zero)
    &&& associative(times)
    &&& annihilates(times, zero)
    &&& distributive(plus, times)
}

pub proof fn use_assoc<T, F: Fn(T, T) -> T>(f: F, x: T, y: T, z: T)
    requires
        associative(f),
    ensures
        op2(f, op2(f, x, y), z) == op2(f, x, op2(f, y, z)),
{
    reveal(associative);
}

pub proof fn use_comm<T, F: Fn(T, T) -> T>(f: F, x: T, y: T)
    requires
        commutative(f),
    ensures
        op2(f, x, y) == op2(f, y, x),
{
    reveal(commutative);
}

pub proof fn use_left_identity<T, F: Fn(T, T) -> T>(f: F, e: T, x: T)
    requires
        left_identity(f, e),
    ensures
        op2(f, e, x) == x,
{
    reveal(left_identity);
}

pub proof fn use_annihilates<T, M: Fn(T, T) -> T>(times: M, zero: T, x: T)
    requires
        annihilates(times, zero),
    ensures
        op2(times, zero, x) == zero,
        op2(times, x, zero) == zero,
{
    reveal(annihilates);
}

pub proof fn use_distributive<T, P: Fn(T, T) -> T, M: Fn(T, T) -> T>(
    plus: P,
    times: M,
    x: T,
    y: T,
    z: T,
)
    requires
        distributive(plus, times),
    ensures
        op2(times, x, op2(plus, y, z)) == op2(plus, op2(times, x, y), op2(times, x, z)),
        op2(times, op2(plus, x, y), z) == op2(plus, op2(times, x, z), op2(times, y, z)),
{
    reveal(distributive);
}

/// `f(0) + f(1) + ... + f(n - 1)`, accumulated from `zero` on the left.
pub open spec fn sum_of<T, P: Fn(T, T) -> T>(plus: P, zero: T, f: spec_fn(int) -> T, n: nat) -> T
    decreases n,
{
    if n == 0 {
        zero
    } else {
        op2(plus, sum_of(plus, zero, f, (n - 1) as nat), f(n - 1))
    }
}

/// Sums of functions that agree below `n` agree.
pub proof fn lemma_sum_ext<T, P: Fn(T, T) -> T>(
    plus: P,
    zero: T,
    f: spec_fn(int) -> T,
    g: spec_fn(int) -> T,
    n: nat,
)
    requires
        forall|k: int| 0 <= k < n ==> #[trigger] f(k) == g(k),
    ensures
        sum_of(plus, zero, f, n) == sum_of(plus, zero, g, n),
    decreases n,
{
    if n > 0 {
        lemma_sum_ext(plus, zero, f, g, (n - 1) as nat);
    }
}

/// An inner product is the sum of the products of the entries.
pub proof fn lemma_dot_is_sum<T, P: Fn(T, T) -> T, M: Fn(T, T) -> T>(
    plus: P,
    times: M,
    zero: T,
    u: Seq<T>,
    v: Seq<T>,
    n: nat,
)
    ensures
        dot(plus, times, zero, u, v, n) == sum_of(plus, zero, |k: int| op2(times, u[k], v[k]), n),
    decreases n,
{
    if n > 0 {
        lemma_dot_is_sum(plus, times, zero, u, v, (n - 1) as nat);
    }
}

/// A sum of norms is the sum of the norms.
pub proof fn lemma_sum_norms_is_sum<T, R, P: Fn(R, R) -> R, N: Fn(T) -> R>(
    plus: P,
    norm: N,
    zero: R,
    s: Seq<T>,
    n: nat,
)
    ensures
        sum_norms(plus, norm, zero, s, n) == sum_of(plus, zero, |k: int| op1(norm, s[k]), n),
    decreases n,
{
    if n > 0 {
        lemma_sum_norms_is_sum(plus, norm, zero, s, (n - 1) as nat);
    }
}

/// The sum of pointwise sums is the sum of the two sums.
pub proof fn lemma_sum_add<T, P: Fn(T, T) -> T, M: Fn(T, T) -> T>(
    plus: P,
    times: M,
    zero: T,
    f: spec_fn(int) -> T,
    g: spec_fn(int) -> T,
    n: nat,
)
    requires
        semiring(plus, times, zero),
    ensures
        sum_of(plus, zero, |k: int| op2(plus, f(k), g(k)), n) == op2(
            plus,
            sum_of(plus, zero, f, n),
            sum_of(plus, zero, g, n),
        ),
    decreases n,
{
    let h = |k: int| op2(plus, f(k), g(k));
    if n == 0 {
        use_left_identity(plus, zero, zero);
    } else {
        let m = (n - 1) as nat;
        lemma_sum_add(plus, times, zero, f, g, m);
        let a = sum_of(plus, zero, f, m);
        let b = sum_of(plus, zero, g, m);
        let x = f(m as int);
        let y = g(m as int);
        // (a + b) + (x + y) == (a + x) + (b + y)
        use_assoc(plus, a, b, op2(plus, x, y));
        use_assoc(plus, b, x, y);
        use_comm(plus, b, x);
        use_assoc(plus, x, b, y);
        use_assoc(plus, a, x, op2(plus, b, y));
    }
}

/// Sums may be exchanged: summing rows first or columns first is the same.
pub proof fn lemma_sum_swap<T, P: Fn(T, T) -> T, M: Fn(T, T) -> T>(
    plus: P,
    times: M,
    zero: T,
    h: spec_fn(int, int) -> T,
    n: nat,
    m: nat,
)
    requires
        semiring(plus, times, zero),
    ensures
        sum_of(plus, zero, |j: int| sum_of(plus, zero, |k: int| h(j, k), m), n) == sum_of(
            plus,
            zero,
            |k: int| sum_of(plus, zero, |j: int| h(j, k), n),
            m,
        ),
    decreases n,
{
    if n == 0 {
        lemma_sum_of_zeros(plus, times, zero, m);
        lemma_sum_ext(
            plus,
            zero,
            |k: int| sum_of(plus, zero, |j: int| h(j, k), 0),
            |k: int| zero,
            m,
        );
    } else {
        let n1 = (n - 1) as nat;
        lemma_sum_swap(plus, times, zero, h, n1, m);
        lemma_sum_add(
            plus,
            times,
            zero,
            |k: int| sum_of(plus, zero, |j: int| h(j, k), n1),
            |k: int| h(n1 as int, k),
            m,
        );
        lemma_sum_ext(
            plus,
            zero,
            |k: int|
                op2(
                    plus,
                    (|k: int| sum_of(plus, zero, |j: int| h(j, k), n1))(k),
                    (|k: int| h(n1 as int, k))(k),
                ),
            |k: int| sum_of(plus, zero, |j: int| h(j, k), n),
            m,
        );
    }
}

/// The sum of `m` zeros is zero.
pub proof fn lemma_sum_of_zeros<T, P: Fn(T, T) -> T, M: Fn(T, T) -> T>(
    plus: P,
    times: M,
    zero: T,
    m: nat,
)
    requires
        semiring(plus, times, zero),
    ensures
        sum_of(plus, zero, |k: int| zero, m) == zero,
    decreases m,
{
    if m > 0 {
        lemma_sum_of_zeros(plus, times, zero, (m - 1) as nat);
        use_left_identity(plus, zero, zero);
    }
}


/// Multiplying a sum on the left multiplies every term.
pub proof fn lemma_times_sum<T, P: Fn(T, T) -> T, M: Fn(T, T) -> T>(
    plus: P,
    times: M,
    zero: T,
    c: T,
    f: spec_fn(int) -> T,
    n: nat,
)
    requires
        semiring(plus, times, zero),
    ensures
        op2(times, c, sum_of(plus, zero, f, n)) == sum_of(
            plus,
            zero,
            |k: int| op2(times, c, f(k)),
            n,
        ),
    decreases n,
{
    if n == 0 {
        use_annihilates(times, zero, c);
    } else {
        let m = (n - 1) as nat;
        lemma_times_sum(plus, times, zero, c, f, m);
        use_distributive(plus, times, c, sum_of(plus, zero, f, m), f(m as int));
    }
}

/// Multiplying a sum on the right multiplies every term.
pub proof fn lemma_sum_times<T, P: Fn(T, T) -> T, M: Fn(T, T) -> T>(
    plus: P,
    times: M,
    zero: T,
    f: spec_fn(int) -> T,
    c: T,
    n: nat,
)
    requires
        semiring(plus, times, zero),
    ensures
        op2(times, sum_of(plus, zero, f, n), c) == sum_of(
            plus,
            zero,
            |k: int| op2(times, f(k), c),
            n,
        ),
    decreases n,
{
    if n == 0 {
        use_annihilates(times, zero, c);
    } else {
        let m = (n - 1) as nat;
        lemma_sum_times(plus, times, zero, f, c, m);
        use_distributive(plus, times, sum_of(plus, zero, f, m), f(m as int), c);
    }
}

/// Applying a product of matrices applies the right factor first:
/// `(a * b) v = a (b v)`.
pub proof fn lemma_apply_product<T, P: Fn(T, T) -> T, M: Fn(T, T) -> T>(
    plus: P,
    times: M,
    zero: T,
    n: nat,
    a: Seq<Seq<T>>,
    b: Seq<Seq<T>>,
    v: Seq<T>,
)
    requires
        semiring(plus, times, zero),
    ensures
        mat_apply(plus, times, zero, n, mat_mul(plus, times, zero, n, a, b), v) =~= mat_apply(
            plus,
            times,
            zero,
            n,
            a,
            mat_apply(plus, times, zero, n, b, v),
        ),
{
    let ab = mat_mul(plus, times, zero, n, a, b);
    let bv = mat_apply(plus, times, zero, n, b, v);
    assert forall|i: int| 0 <= i < n implies mat_apply(plus, times, zero, n, ab, v)[i]
        == mat_apply(plus, times, zero, n, a, bv)[i] by {
        let h = |j: int, k: int| op2(times, op2(times, a[i][k], b[k][j]), v[j]);
        // left side: sum over j of (sum over k of a_ik b_kj) v_j
        lemma_dot_is_sum(plus, times, zero, ab[i], v, n);
        assert forall|j: int| 0 <= j < n implies #[trigger] op2(times, ab[i][j], v[j]) == sum_of(
            plus,
            zero,
            |k: int| h(j, k),
            n,
        ) by {
            lemma_dot_is_sum(plus, times, zero, a[i], column(b, n, j), n);
            lemma_sum_times(plus, times, zero, |k: int| op2(times, a[i][k], column(b, n, j)[k]), v[j], n);
            lemma_sum_ext(
                plus,
                zero,
                |k: int| op2(times, (|k: int| op2(times, a[i][k], column(b, n, j)[k]))(k), v[j]),
                |k: int| h(j, k),
                n,
            );
        }
        lemma_sum_ext(
            plus,
            zero,
            |j: int| op2(times, ab[i][j], v[j]),
            |j: int| sum_of(plus, zero, |k: int| h(j, k), n),
            n,
        );
        // right side: sum over k of a_ik (sum over j of b_kj v_j)
        lemma_dot_is_sum(plus, times, zero, a[i], bv, n);
        assert forall|k: int| 0 <= k < n implies #[trigger] op2(times, a[i][k], bv[k]) == sum_of(
            plus,
            zero,
            |j: int| h(j, k),
            n,
        ) by {
            lemma_dot_is_sum(plus, times, zero, b[k], v, n);
            lemma_times_sum(plus, times, zero, a[i][k], |j: int| op2(times, b[k][j], v[j]), n);
            assert forall|j: int| 0 <= j < n implies #[trigger] op2(
                times,
                a[i][k],
                op2(times, b[k][j], v[j]),
            ) == h(j, k) by {
                use_assoc(times, a[i][k], b[k][j], v[j]);
            }
            lemma_sum_ext(
                plus,
                zero,
                |j: int| op2(times, a[i][k], (|j: int| op2(times, b[k][j], v[j]))(j)),
                |j: int| h(j, k),
                n,
            );
        }
        lemma_sum_ext(
            plus,
            zero,
            |k: int| op2(times, a[i][k], bv[k]),
            |k: int| sum_of(plus, zero, |j: int| h(j, k), n),
            n,
        );
        lemma_sum_swap(plus, times, zero, h, n, n);
    }
}


/// The sum of the three terms `f(3j), f(3j + 1), f(3j + 2)`.
pub open spec fn block_sum<T, P: Fn(T, T) -> T>(plus: P, zero: T, f: spec_fn(int) -> T, j: int) -> T {
    sum_of(plus, zero, |k: int| f(3 * j + k), 3)
}

/// The sum of row `j` of `h`: `h(j, 0) + ... + h(j, m - 1)`.
pub open spec fn row_sum<T, P: Fn(T, T) -> T>(
    plus: P,
    zero: T,
    h: spec_fn(int, int) -> T,
    j: int,
    m: nat,
) -> T {
    sum_of(plus, zero, |k: int| h(j, k), m)
}

/// A sum over `3n` terms is the sum over `n` blocks of three.
pub proof fn lemma_sum_blocks<T, P: Fn(T, T) -> T, M: Fn(T, T) -> T>(
    plus: P,
    times: M,
    zero: T,
    f: spec_fn(int) -> T,
    n: nat,
)
    requires
        semiring(plus, times, zero),
    ensures
        sum_of(plus, zero, f, 3 * n) == sum_of(
            plus,
            zero,
            |j: int| block_sum(plus, zero, f, j),
            n,
        ),
    decreases n,
{
    if n > 0 {
        let m = (n - 1) as nat;
        lemma_sum_blocks(plus, times, zero, f, m);
        let s0 = sum_of(plus, zero, f, 3 * m);
        let x = f(3 * m as int);
        let y = f(3 * m as int + 1);
        let z = f(3 * m as int + 2);
        let g = |k: int| f(3 * (m as int) + k);
        assert(g(0) == x && g(1) == y && g(2) == z);
        assert(sum_of(plus, zero, g, 0) == zero);
        assert(sum_of(plus, zero, g, 1) == op2(plus, zero, x));
        use_left_identity(plus, zero, x);
        assert(sum_of(plus, zero, g, 2) == op2(plus, x, y));
        assert(sum_of(plus, zero, g, 3) == op2(plus, op2(plus, x, y), z));
        assert(block_sum(plus, zero, f, m as int) == sum_of(plus, zero, g, 3));
        assert(sum_of(plus, zero, f, (3 * m + 1) as nat) == op2(plus, s0, x));
        assert(sum_of(plus, zero, f, (3 * m + 2) as nat) == op2(plus, op2(plus, s0, x), y));
        assert(sum_of(plus, zero, f, 3 * n) == op2(plus, op2(plus, op2(plus, s0, x), y), z));
        use_assoc(plus, s0, op2(plus, x, y), z);
        use_assoc(plus, s0, x, y);
    }
}

/// `(a b)(p q) = (a p)(b q)` for a commutative, associative product.
pub proof fn lemma_interchange<T, M: Fn(T, T) -> T>(times: M, a: T, b: T, p: T, q: T)
    requires
        associative(times),
        commutative(times),
    ensures
        op2(times, op2(times, a, b), op2(times, p, q)) == op2(
            times,
            op2(times, a, p),
            op2(times, b, q),
        ),
{
    use_assoc(times, a, b, op2(times, p, q));
    use_assoc(times, b, p, q);
    use_comm(times, b, p);
    use_assoc(times, p, b, q);
    use_assoc(times, a, p, op2(times, b, q));
}

/// A Kronecker product of gates applied to a product state is the product
/// of the gated states: `(a (x) b)(p (x) q) = (a p) (x) (b q)`.
pub proof fn lemma_kron_apply_product<T, P: Fn(T, T) -> T, M: Fn(T, T) -> T>(
    plus: P,
    times: M,
    zero: T,
    a: Seq<Seq<T>>,
    b: Seq<Seq<T>>,
    p: Seq<T>,
    q: Seq<T>,
)
    requires
        semiring(plus, times, zero),
        commutative(times),
    ensures
        mat_apply(plus, times, zero, 9, kron(times, a, b), product_state(times, p, q))
            =~= product_state(
            times,
            mat_apply(plus, times, zero, 3, a, p),
            mat_apply(plus, times, zero, 3, b, q),
        ),
{
    let k = kron(times, a, b);
    let ps = product_state(times, p, q);
    let ap = mat_apply(plus, times, zero, 3, a, p);
    let bq = mat_apply(plus, times, zero, 3, b, q);
    assert forall|r: int| 0 <= r < 9 implies mat_apply(plus, times, zero, 9, k, ps)[r]
        == product_state(times, ap, bq)[r] by {
        let i1 = r / 3;
        let i2 = r % 3;
        let g = |c: int| op2(times, k[r][c], ps[c]);
        let h = |j: int, l: int| op2(times, op2(times, a[i1][j], p[j]), op2(times, b[i2][l], q[l]));
        // left side
        lemma_dot_is_sum(plus, times, zero, k[r], ps, 9);
        lemma_sum_blocks(plus, times, zero, g, 3);
        assert forall|j: int| 0 <= j < 3 implies #[trigger] block_sum(plus, zero, g, j) == row_sum(
            plus,
            zero,
            h,
            j,
            3,
        ) by {
            assert forall|l: int| 0 <= l < 3 implies #[trigger] g(3 * j + l) == h(j, l) by {
                assert((3 * j + l) / 3 == j && (3 * j + l) % 3 == l);
                lemma_interchange(times, a[i1][j], b[i2][l], p[j], q[l]);
            }
            lemma_sum_ext(plus, zero, |l: int| g(3 * j + l), |l: int| h(j, l), 3);
        }
        lemma_sum_ext(
            plus,
            zero,
            |j: int| block_sum(plus, zero, g, j),
            |j: int| row_sum(plus, zero, h, j, 3),
            3,
        );
        // right side
        lemma_dot_is_sum(plus, times, zero, a[i1], p, 3);
        lemma_dot_is_sum(plus, times, zero, b[i2], q, 3);
        let fa = |j: int| op2(times, a[i1][j], p[j]);
        let fb = |l: int| op2(times, b[i2][l], q[l]);
        let sb = sum_of(plus, zero, fb, 3);
        lemma_sum_times(plus, times, zero, fa, sb, 3);
        assert forall|j: int| 0 <= j < 3 implies #[trigger] op2(times, fa(j), sb) == row_sum(
            plus,
            zero,
            h,
            j,
            3,
        ) by {
            lemma_times_sum(plus, times, zero, fa(j), fb, 3);
            lemma_sum_ext(plus, zero, |l: int| op2(times, fa(j), fb(l)), |l: int| h(j, l), 3);
        }
        lemma_sum_ext(
            plus,
            zero,
            |j: int| op2(times, fa(j), sb),
            |j: int| row_sum(plus, zero, h, j, 3),
            3,
        );
        assert(ap[i1] == sum_of(plus, zero, fa, 3));
        assert(bq[i2] == sb);
    }
}


/// The total probability of a product state is the product of the totals,
/// when the norm is multiplicative on the nine amplitudes.
pub proof fn lemma_product_total<T, R, M: Fn(T, T) -> T, P: Fn(R, R) -> R, Q: Fn(R, R) -> R, N: Fn(T) -> R>(
    times: M,
    plus_r: P,
    times_r: Q,
    zero_r: R,
    norm: N,
    a: Seq<T>,
    b: Seq<T>,
)
    requires
        semiring(plus_r, times_r, zero_r),
        forall|j: int, l: int|
            0 <= j < 3 && 0 <= l < 3 ==> #[trigger] op1(norm, op2(times, a[j], b[l])) == op2(
                times_r,
                op1(norm, a[j]),
                op1(norm, b[l]),
            ),
    ensures
        sum_norms(plus_r, norm, zero_r, product_state(times, a, b), 9) == op2(
            times_r,
            sum_norms(plus_r, norm, zero_r, a, 3),
            sum_norms(plus_r, norm, zero_r, b, 3),
        ),
{
    let ps = product_state(times, a, b);
    let g = |c: int| op1(norm, ps[c]);
    let na = |j: int| op1(norm, a[j]);
    let nb = |l: int| op1(norm, b[l]);
    let h = |j: int, l: int| op2(times_r, na(j), nb(l));
    lemma_sum_norms_is_sum(plus_r, norm, zero_r, ps, 9);
    lemma_sum_blocks(plus_r, times_r, zero_r, g, 3);
    assert forall|j: int| 0 <= j < 3 implies #[trigger] block_sum(plus_r, zero_r, g, j) == row_sum(
        plus_r,
        zero_r,
        h,
        j,
        3,
    ) by {
        assert forall|l: int| 0 <= l < 3 implies #[trigger] g(3 * j + l) == h(j, l) by {
            assert((3 * j + l) / 3 == j && (3 * j + l) % 3 == l);
        }
        lemma_sum_ext(plus_r, zero_r, |l: int| g(3 * j + l), |l: int| h(j, l), 3);
    }
    lemma_sum_ext(
        plus_r,
        zero_r,
        |j: int| block_sum(plus_r, zero_r, g, j),
        |j: int| row_sum(plus_r, zero_r, h, j, 3),
        3,
    );
    lemma_sum_norms_is_sum(plus_r, norm, zero_r, a, 3);
    lemma_sum_norms_is_sum(plus_r, norm, zero_r, b, 3);
    let sb = sum_of(plus_r, zero_r, nb, 3);
    lemma_sum_times(plus_r, times_r, zero_r, na, sb, 3);
    assert forall|j: int| 0 <= j < 3 implies #[trigger] op2(times_r, na(j), sb) == row_sum(
        plus_r,
        zero_r,
        h,
        j,
        3,
    ) by {
        lemma_times_sum(plus_r, times_r, zero_r, na(j), nb, 3);
        lemma_sum_ext(plus_r, zero_r, |l: int| op2(times_r, na(j), nb(l)), |l: int| h(j, l), 3);
    }
    lemma_sum_ext(
        plus_r,
        zero_r,
        |j: int| op2(times_r, na(j), sb),
        |j: int| row_sum(plus_r, zero_r, h, j, 3),
        3,
    );
}

/// Applying a matrix to the basis state `|k>` gives its column `k`.
pub proof fn lemma_apply_basis_is_column<T, P: Fn(T, T) -> T, M: Fn(T, T) -> T>(
    plus: P,
    times: M,
    zero: T,
    one: T,
    n: nat,
    m: Seq<Seq<T>>,
    k: int,
)
    requires
        0 <= k < n,
        unit_on(plus, times, zero, one, zero),
        forall|i: int, j: int|
            0 <= i < n && 0 <= j < n ==> #[trigger] unit_on(plus, times, zero, one, m[i][j]),
    ensures
        mat_apply(plus, times, zero, n, m, basis_vector(n, k, zero, one)) =~= column(m, n, k),
{
    let e = basis_vector(n, k, zero, one);
    assert forall|i: int| 0 <= i < n implies mat_apply(plus, times, zero, n, m, e)[i] == m[i][k] by {
        assert forall|j: int| 0 <= j < n && j != k implies #[trigger] op2(times, m[i][j], e[j])
            == zero by {
            assert(unit_on(plus, times, zero, one, m[i][j]));
        }
        assert(unit_on(plus, times, zero, one, m[i][k]));
        lemma_dot_single_term(plus, times, zero, m[i], e, n, k);
    }
}

/// A gate whose column `k` has every norm equal to `c` keeps the total
/// probability of `|k>`, when that total is `c + ... + c` (`n` times).
pub proof fn lemma_gate_keeps_basis_total<
    T,
    R,
    P: Fn(T, T) -> T,
    M: Fn(T, T) -> T,
    Q: Fn(R, R) -> R,
    N: Fn(T) -> R,
>(
    plus: P,
    times: M,
    zero: T,
    one: T,
    plus_r: Q,
    norm: N,
    zero_r: R,
    n: nat,
    m: Seq<Seq<T>>,
    k: int,
    c: R,
)
    requires
        0 <= k < n,
        unit_on(plus, times, zero, one, zero),
        forall|i: int, j: int|
            0 <= i < n && 0 <= j < n ==> #[trigger] unit_on(plus, times, zero, one, m[i][j]),
        forall|i: int| 0 <= i < n ==> #[trigger] op1(norm, m[i][k]) == c,
        sum_norms(plus_r, norm, zero_r, basis_vector(n, k, zero, one), n) == sum_of(
            plus_r,
            zero_r,
            |i: int| c,
            n,
        ),
    ensures
        sum_norms(
            plus_r,
            norm,
            zero_r,
            mat_apply(plus, times, zero, n, m, basis_vector(n, k, zero, one)),
            n,
        ) == sum_norms(plus_r, norm, zero_r, basis_vector(n, k, zero, one), n),
{
    let out = mat_apply(plus, times, zero, n, m, basis_vector(n, k, zero, one));
    lemma_apply_basis_is_column(plus, times, zero, one, n, m, k);
    lemma_sum_norms_is_sum(plus_r, norm, zero_r, out, n);
    assert forall|i: int| 0 <= i < n implies #[trigger] op1(norm, out[i]) == c by {
        assert(out[i] == m[i][k]);
    }
    lemma_sum_ext(plus_r, zero_r, |i: int| op1(norm, out[i]), |i: int| c, n);
}

/// H keeps the total probability of every basis state, when all its entries
/// have the norm `c` and `c + c + c` is the total of a basis state.
pub proof fn lemma_h_keeps_basis_total<
    T,
    R,
    P: Fn(T, T) -> T,
    M: Fn(T, T) -> T,
    Q: Fn(R, R) -> R,
    N: Fn(T) -> R,
>(
    plus: P,
    times: M,
    zero: T,
    one: T,
    plus_r: Q,
    norm: N,
    zero_r: R,
    inv_sqrt3: T,
    omega: T,
    k: int,
    c: R,
)
    requires
        0 <= k < 3,
        unit_on(plus, times, zero, one, zero),
        forall|i: int, j: int|
            0 <= i < 3 && 0 <= j < 3 ==> #[trigger] unit_on(
                plus,
                times,
                zero,
                one,
                h_matrix(inv_sqrt3, omega, times)[i][j],
            ),
        forall|i: int, j: int|
            0 <= i < 3 && 0 <= j < 3 ==> #[trigger] op1(
                norm,
                h_matrix(inv_sqrt3, omega, times)[i][j],
            ) == c,
        sum_norms(plus_r, norm, zero_r, basis_vector(3, k, zero, one), 3) == sum_of(
            plus_r,
            zero_r,
            |i: int| c,
            3,
        ),
    ensures
        sum_norms(
            plus_r,
            norm,
            zero_r,
            mat_apply(
                plus,
                times,
                zero,
                3,
                h_matrix(inv_sqrt3, omega, times),
                basis_vector(3, k, zero, one),
            ),
            3,
        ) == sum_norms(plus_r, norm, zero_r, basis_vector(3, k, zero, one), 3),
{
    let h = h_matrix(inv_sqrt3, omega, times);
    assert forall|i: int| 0 <= i < 3 implies #[trigger] op1(norm, h[i][k]) == c by {}
    lemma_gate_keeps_basis_total(plus, times, zero, one, plus_r, norm, zero_r, 3, h, k, c);
}

/// The two-qutrit QFT keeps the total probability of every basis state
/// (so of every product of basis states), when all its entries have the
/// norm `c` and nine times `c` is the total of a basis state.
pub proof fn lemma_qft_two_keeps_basis_total<
    T,
    R,
    P: Fn(T, T) -> T,
    M: Fn(T, T) -> T,
    Q: Fn(R, R) -> R,
    N: Fn(T) -> R,
>(
    plus: P,
    times: M,
    zero: T,
    one: T,
    plus_r: Q,
    norm: N,
    zero_r: R,
    omega: T,
    inv3: T,
    k: int,
    c: R,
)
    requires
        0 <= k < 9,
        unit_on(plus, times, zero, one, zero),
        forall|i: int, j: int|
            0 <= i < 9 && 0 <= j < 9 ==> #[trigger] unit_on(
                plus,
                times,
                zero,
                one,
                qft_two_matrix(one, omega, inv3, times)[i][j],
            ),
        forall|i: int, j: int|
            0 <= i < 9 && 0 <= j < 9 ==> #[trigger] op1(
                norm,
                qft_two_matrix(one, omega, inv3, times)[i][j],
            ) == c,
        sum_norms(plus_r, norm, zero_r, basis_vector(9, k, zero, one), 9) == sum_of(
            plus_r,
            zero_r,
            |i: int| c,
            9,
        ),
    ensures
        sum_norms(
            plus_r,
            norm,
            zero_r,
            mat_apply(
                plus,
                times,
                zero,
                9,
                qft_two_matrix(one, omega, inv3, times),
                basis_vector(9, k, zero, one),
            ),
            9,
        ) == sum_norms(plus_r, norm, zero_r, basis_vector(9, k, zero, one), 9),
{
    let q = qft_two_matrix(one, omega, inv3, times);
    assert forall|i: int| 0 <= i < 9 implies #[trigger] op1(norm, q[i][k]) == c by {}
    lemma_gate_keeps_basis_total(plus, times, zero, one, plus_r, norm, zero_r, 9, q, k, c);
}

} // verus!
