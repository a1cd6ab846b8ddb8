//! Scalar arithmetic handed to the kernels as closures.
//!
//! The kernels of this crate never look inside an amplitude: every sum,
//! product, difference, norm or comparison is a call of a closure that the
//! caller supplies.  A closure is *functional* when it accepts every argument
//! and always answers the same for the same arguments; the value it answers
//! is then named by `op1` / `op2`, and the contracts of the kernels are
//! stated over those names.
use vstd::prelude::*;

verus! {

/// `f` accepts every argument and answers the same for the same argument.
pub open spec fn functional1<A, B, F: Fn(A) -> B>(f: F) -> bool {
    &&& forall|x: A| #[trigger] call_requires(f, (x,))
    &&& forall|x: A, r1: B, r2: B|
        #![trigger call_ensures(f, (x,), r1), call_ensures(f, (x,), r2)]
        call_ensures(f, (x,), r1) && call_ensures(f, (x,), r2) ==> r1 == r2
}

/// `f` accepts every pair of arguments and answers the same for the same pair.
pub open spec fn functional2<A, B, C, F: Fn(A, B) -> C>(f: F) -> bool {
    &&& forall|x: A, y: B| #[trigger] call_requires(f, (x, y))
    &&& forall|x: A, y: B, r1: C, r2: C|
        #![trigger call_ensures(f, (x, y), r1), call_ensures(f, (x, y), r2)]
        call_ensures(f, (x, y), r1) && call_ensures(f, (x, y), r2) ==> r1 == r2
}

/// The answer of a functional unary closure on `x`.
pub open spec fn op1<A, B, F: Fn(A) -> B>(f: F, x: A) -> B {
    choose|r: B| call_ensures(f, (x,), r)
}

/// The answer of a functional binary closure on `(x, y)`.
pub open spec fn op2<A, B, C, F: Fn(A, B) -> C>(f: F, x: A, y: B) -> C {
    choose|r: C| call_ensures(f, (x, y), r)
}

/// `op1(f, x)` is an answer that `f` really gives on `x`.
pub open spec fn called1<A, B, F: Fn(A) -> B>(f: F, x: A) -> bool {
    call_ensures(f, (x,), op1(f, x))
}

/// `op2(f, x, y)` is an answer that `f` really gives on `(x, y)`.
pub open spec fn called2<A, B, C, F: Fn(A, B) -> C>(f: F, x: A, y: B) -> bool {
    call_ensures(f, (x, y), op2(f, x, y))
}

/// Calls a functional unary closure.
pub fn call1<A, B, F: Fn(A) -> B>(f: &F, x: A) -> (r: B)
    requires
        functional1(*f),
    ensures
        r == op1(*f, x),
        called1(*f, x),
{
    f(x)
}

/// Calls a functional binary closure.
pub fn call2<A, B, C, F: Fn(A, B) -> C>(f: &F, x: A, y: B) -> (r: C)
    requires
        functional2(*f),
    ensures
        r == op2(*f, x, y),
        called2(*f, x, y),
{
    f(x, y)
}

/// The first `n` terms of the inner product of `u` and `v`, accumulated from
/// the left: `((zero + u0*v0) + u1*v1) + ...`.
pub open spec fn dot<T, P: Fn(T, T) -> T, M: Fn(T, T) -> T>(
    plus: P,
    times: M,
    zero: T,
    u: Seq<T>,
    v: Seq<T>,
    n: nat,
) -> T
    decreases n,
{
    if n == 0 {
        zero
    } else {
        op2(
            plus,
            dot(plus, times, zero, u, v, (n - 1) as nat),
            op2(times, u[n - 1], v[n - 1]),
        )
    }
}

/// Unfolds `dot`: the empty inner product is `zero`, and each further term
/// is added to the inner product of the terms before it.
pub proof fn lemma_dot_unfold<T, P: Fn(T, T) -> T, M: Fn(T, T) -> T>(
    plus: P,
    times: M,
    zero: T,
    u: Seq<T>,
    v: Seq<T>,
    n: nat,
)
    ensures
        dot(plus, times, zero, u, v, 0) == zero,
        dot(plus, times, zero, u, v, n + 1) == op2(
            plus,
            dot(plus, times, zero, u, v, n),
            op2(times, u[n as int], v[n as int]),
        ),
{
}

/// Inner product of two slices of equal length, accumulated from the left.
pub fn dot_exec<T: Copy, P: Fn(T, T) -> T, M: Fn(T, T) -> T>(
    plus: &P,
    times: &M,
    zero: T,
    u: &[T],
    v: &[T],
) -> (r: T)
    requires
        functional2(*plus),
        functional2(*times),
        u@.len() == v@.len(),
    ensures
        r == dot(*plus, *times, zero, u@, v@, u@.len() as nat),
        dot_called(*plus, *times, zero, u@, v@, u@.len() as nat),
{
    let mut acc = zero;
    let mut k: usize = 0;
    while k < u.len()
        invariant
            functional2(*plus),
            functional2(*times),
            u@.len() == v@.len(),
            k <= u@.len(),
            acc == dot(*plus, *times, zero, u@, v@, k as nat),
            dot_called(*plus, *times, zero, u@, v@, k as nat),
        decreases u@.len() - k,
    {
        let p = call2(times, u[k], v[k]);
        acc = call2(plus, acc, p);
        k = k + 1;
    }
    acc
}

/// The arithmetic is exact on `zero` and `one`: they differ, and it adds and
/// multiplies them as the numbers 0 and 1 (so long as no sum reaches 2).
pub open spec fn exact_on_bits<T, P: Fn(T, T) -> T, M: Fn(T, T) -> T>(
    plus: P,
    times: M,
    zero: T,
    one: T,
) -> bool {
    &&& zero != one
    &&& op2(plus, zero, zero) == zero
    &&& op2(plus, zero, one) == one
    &&& op2(plus, one, zero) == one
    &&& op2(times, zero, zero) == zero
    &&& op2(times, zero, one) == zero
    &&& op2(times, one, zero) == zero
    &&& op2(times, one, one) == one
}

/// Every entry of `u` is `zero` or `one`.
pub open spec fn is_bit_seq<T>(u: Seq<T>, zero: T, one: T) -> bool {
    forall|k: int| 0 <= k < u.len() ==> #[trigger] u[k] == zero || u[k] == one
}

/// Position `k` holds `one` in both `u` and `v`.
pub open spec fn hit<T>(u: Seq<T>, v: Seq<T>, one: T, k: int) -> bool {
    u[k] == one && v[k] == one
}

/// The inner product of two 0/1 sequences that meet in at most one position
/// is `one` if they meet and `zero` if they do not.
pub proof fn lemma_dot_bits<T, P: Fn(T, T) -> T, M: Fn(T, T) -> T>(
    plus: P,
    times: M,
    zero: T,
    one: T,
    u: Seq<T>,
    v: Seq<T>,
    n: nat,
)
    requires
        exact_on_bits(plus, times, zero, one),
        n <= u.len(),
        n <= v.len(),
        is_bit_seq(u, zero, one),
        is_bit_seq(v, zero, one),
        forall|k1: int, k2: int|
            0 <= k1 < n && 0 <= k2 < n && hit(u, v, one, k1) && hit(u, v, one, k2) ==> k1 == k2,
    ensures
        dot(plus, times, zero, u, v, n) == (if exists|k: int| 0 <= k < n && hit(u, v, one, k) {
            one
        } else {
            zero
        }),
    decreases n,
{
    if n > 0 {
        let m: nat = (n - 1) as nat;
        lemma_dot_bits(plus, times, zero, one, u, v, m);
        let last: int = m as int;
        assert(u[last] == zero || u[last] == one);
        assert(v[last] == zero || v[last] == one);
        if hit(u, v, one, last) {
            assert(!exists|k: int| 0 <= k < m && hit(u, v, one, k));
        } else {
            if exists|k: int| 0 <= k < n && hit(u, v, one, k) {
                let k: int = choose|k: int| 0 <= k < n && hit(u, v, one, k);
                assert(0 <= k < m);
            }
        }
    }
}

/// `zero` and `one` act as units on the value `x`: `0 + x = x + 0 = x`,
/// `0 * x = x * 0 = 0` and `1 * x = x * 1 = x`.
pub open spec fn unit_on<T, P: Fn(T, T) -> T, M: Fn(T, T) -> T>(
    plus: P,
    times: M,
    zero: T,
    one: T,
    x: T,
) -> bool {
    &&& op2(plus, zero, x) == x
    &&& op2(plus, x, zero) == x
    &&& op2(times, zero, x) == zero
    &&& op2(times, x, zero) == zero
    &&& op2(times, one, x) == x
    &&& op2(times, x, one) == x
}

/// An inner product in which every term but the one at `p` is `zero` is
/// that one term, when adding `zero` changes neither `zero` nor that term.
pub proof fn lemma_dot_single_term<T, P: Fn(T, T) -> T, M: Fn(T, T) -> T>(
    plus: P,
    times: M,
    zero: T,
    u: Seq<T>,
    v: Seq<T>,
    n: nat,
    p: int,
)
    requires
        forall|k: int| 0 <= k < n && k != p ==> #[trigger] op2(times, u[k], v[k]) == zero,
        op2(plus, zero, zero) == zero,
        0 <= p < n ==> op2(plus, zero, op2(times, u[p], v[p])) == op2(times, u[p], v[p]),
        0 <= p < n ==> op2(plus, op2(times, u[p], v[p]), zero) == op2(times, u[p], v[p]),
    ensures
        dot(plus, times, zero, u, v, n) == (if 0 <= p < n {
            op2(times, u[p], v[p])
        } else {
            zero
        }),
    decreases n,
{
    if n > 0 {
        let m: nat = (n - 1) as nat;
        lemma_dot_single_term(plus, times, zero, u, v, m, p);
        if m as int != p {
            assert(op2(times, u[m as int], v[m as int]) == zero);
        }
    }
}

/// Every product and partial sum of the inner product is an answer that the
/// closures really give.
pub open spec fn dot_called<T, P: Fn(T, T) -> T, M: Fn(T, T) -> T>(
    plus: P,
    times: M,
    zero: T,
    u: Seq<T>,
    v: Seq<T>,
    n: nat,
) -> bool {
    forall|k: int|
        0 <= k < n ==> {
            &&& #[trigger] called2(times, u[k], v[k])
            &&& called2(plus, dot(plus, times, zero, u, v, k as nat), op2(times, u[k], v[k]))
        }
}

} // verus!
