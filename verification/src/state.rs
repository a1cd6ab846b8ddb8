//! Qutrit and two-qutrit states over an abstract amplitude type.
use vstd::prelude::*;

use crate::matrix::{delta, mat_apply, rows9, Matrix3};
use crate::scalar::{
    call1, call2, called1, called2, dot_called, dot_exec, functional1, functional2, op1, op2,
};

verus! {

/// The basis vector `|k>` of length `n`: `one` at `k`, `zero` elsewhere.
pub open spec fn basis_vector<T>(n: nat, k: int, zero: T, one: T) -> Seq<T> {
    Seq::new(n, |i: int| delta(i, k, zero, one))
}

/// The sum of the norms of the first `n` amplitudes, accumulated from the left.
pub open spec fn sum_norms<T, R, P: Fn(R, R) -> R, N: Fn(T) -> R>(
    plus: P,
    norm: N,
    zero: R,
    s: Seq<T>,
    n: nat,
) -> R
    decreases n,
{
    if n == 0 {
        zero
    } else {
        op2(plus, sum_norms(plus, norm, zero, s, (n - 1) as nat), op1(norm, s[n - 1]))
    }
}

/// Unfolds `sum_norms`: the empty sum is `zero`, and each further norm is
/// added to the sum of the norms before it.
pub proof fn lemma_sum_norms_unfold<T, R, P: Fn(R, R) -> R, N: Fn(T) -> R>(
    plus: P,
    norm: N,
    zero: R,
    s: Seq<T>,
    n: nat,
)
    ensures
        sum_norms(plus, norm, zero, s, 0) == zero,
        sum_norms(plus, norm, zero, s, n + 1) == op2(
            plus,
            sum_norms(plus, norm, zero, s, n),
            op1(norm, s[n as int]),
        ),
{
}

/// Every norm and partial sum of `sum_norms` is an answer that the closures really give.
pub open spec fn norms_called<T, R, P: Fn(R, R) -> R, N: Fn(T) -> R>(
    plus: P,
    norm: N,
    zero: R,
    s: Seq<T>,
    n: nat,
) -> bool {
    forall|k: int|
        0 <= k < n ==> {
            &&& #[trigger] called1(norm, s[k])
            &&& called2(plus, sum_norms(plus, norm, zero, s, k as nat), op1(norm, s[k]))
        }
}

/// Sums the norms of the amplitudes of `s`, from the left.
fn sum_norms_exec<T: Copy, R, P: Fn(R, R) -> R, N: Fn(T) -> R>(
    plus: &P,
    norm: &N,
    zero: R,
    s: &[T],
) -> (r: R)
    requires
        functional2(*plus),
        functional1(*norm),
    ensures
        r == sum_norms(*plus, *norm, zero, s@, s@.len() as nat),
        norms_called(*plus, *norm, zero, s@, s@.len() as nat),
{
    let mut acc = zero;
    let mut k: usize = 0;
    while k < s.len()
        invariant
            functional2(*plus),
            functional1(*norm),
            k <= s@.len(),
            acc == sum_norms(*plus, *norm, zero, s@, k as nat),
            norms_called(*plus, *norm, zero, s@, k as nat),
        decreases s@.len() - k,
    {
        let p = call1(norm, s[k]);
        acc = call2(plus, acc, p);
        k = k + 1;
    }
    acc
}

/// The outcome of the deterministic measurement: `0` when `roll < p0`,
/// else `1` when `roll < p0 + p1`, else `2`.
pub open spec fn measure_outcome<R, P: Fn(R, R) -> R, L: Fn(R, R) -> bool>(
    plus: P,
    less: L,
    roll: R,
    p0: R,
    p1: R,
) -> u8 {
    if op2(less, roll, p0) {
        0
    } else if op2(less, roll, op2(plus, p0, p1)) {
        1
    } else {
        2
    }
}

/// A qutrit (quantum trit) with state vector in C^3.
#[derive(Clone, Debug)]
pub struct Qutrit<T> {
    pub state: [T; 3],
}

impl<T: Copy> Qutrit<T> {
    /// The computational basis state `|k>`.
    pub fn new(k: u8, zero: T, one: T) -> (q: Self)
        requires
            k <= 2,
        ensures
            q.state@ =~= basis_vector(3, k as int, zero, one),
    {
        let mut state = [zero; 3];
        state[k as usize] = one;
        Qutrit { state }
    }

    /// The uniform superposition: every amplitude is `amp` (`1/sqrt(3)`).
    pub fn uniform(amp: T) -> (q: Self)
        ensures
            q.state@ =~= seq![amp, amp, amp],
    {
        Qutrit { state: [amp, amp, amp] }
    }

    /// Applies a gate to this qutrit.
    pub fn apply<P: Fn(T, T) -> T, M: Fn(T, T) -> T>(
        &mut self,
        gate: &Matrix3<T>,
        zero: T,
        plus: &P,
        times: &M,
    )
        requires
            functional2(*plus),
            functional2(*times),
        ensures
            final(self).state@ =~= mat_apply(*plus, *times, zero, 3, gate@, old(self).state@),
            forall|i: int|
                0 <= i < 3 ==> #[trigger] dot_called(
                    *plus,
                    *times,
                    zero,
                    gate@[i],
                    old(self).state@,
                    3,
                ),
    {
        self.state = gate.apply(&self.state, zero, plus, times);
    }

    /// Probability of measuring `|k>`: the norm of amplitude `k`.
    pub fn probability<R, N: Fn(T) -> R>(&self, k: u8, norm: &N) -> (p: R)
        requires
            k <= 2,
            functional1(*norm),
        ensures
            p == op1(*norm, self.state[k as int]),
            called1(*norm, self.state[k as int]),
    {
        call1(norm, self.state[k as usize])
    }

    /// Total probability: the sum of the three norms, from `zero` on.
    pub fn total_probability<R, P: Fn(R, R) -> R, N: Fn(T) -> R>(
        &self,
        zero: R,
        plus: &P,
        norm: &N,
    ) -> (p: R)
        requires
            functional2(*plus),
            functional1(*norm),
        ensures
            p == sum_norms(*plus, *norm, zero, self.state@, 3),
            norms_called(*plus, *norm, zero, self.state@, 3),
    {
        sum_norms_exec(plus, norm, zero, &self.state)
    }

    /// Measures the qutrit against the fixed `roll` and collapses it to the
    /// basis state of the outcome, which it returns.
    pub fn measure<R: Copy, P: Fn(R, R) -> R, L: Fn(R, R) -> bool, N: Fn(T) -> R>(
        &mut self,
        zero: T,
        one: T,
        roll: R,
        plus: &P,
        less: &L,
        norm: &N,
    ) -> (outcome: u8)
        requires
            functional2(*plus),
            functional2(*less),
            functional1(*norm),
        ensures
            outcome == measure_outcome(
                *plus,
                *less,
                roll,
                op1(*norm, old(self).state[0]),
                op1(*norm, old(self).state[1]),
            ),
            outcome <= 2,
            final(self).state@ =~= basis_vector(3, outcome as int, zero, one),
            called1(*norm, old(self).state[0]),
            called2(*less, roll, op1(*norm, old(self).state[0])),
            !op2(*less, roll, op1(*norm, old(self).state[0])) ==> {
                &&& called1(*norm, old(self).state[1])
                &&& called2(*plus, op1(*norm, old(self).state[0]), op1(*norm, old(self).state[1]))
                &&& called2(
                    *less,
                    roll,
                    op2(*plus, op1(*norm, old(self).state[0]), op1(*norm, old(self).state[1])),
                )
            },
    {
        let r = self.probability(0, norm);
        if call2(less, roll, r) {
            self.state = [one, zero, zero];
            0
        } else {
            let p1 = self.probability(1, norm);
            let s = call2(plus, r, p1);
            if call2(less, roll, s) {
                self.state = [zero, one, zero];
                1
            } else {
                self.state = [zero, zero, one];
                2
            }
        }
    }
}

/// The product state of two qutrits: amplitude `3i + j` is `a[i] * b[j]`.
pub open spec fn product_state<T, M: Fn(T, T) -> T>(times: M, a: Seq<T>, b: Seq<T>) -> Seq<T> {
    Seq::new(9, |i: int| op2(times, a[i / 3], b[i % 3]))
}

/// Amplitude `k` of `s` is that of the product state, computed by a real call.
pub open spec fn product_entry_done<T, M: Fn(T, T) -> T>(
    times: M,
    a: Seq<T>,
    b: Seq<T>,
    s: [T; 9],
    k: int,
) -> bool {
    &&& s[k] == product_state(times, a, b)[k]
    &&& called2(times, a[k / 3], b[k % 3])
}

/// The ternary Bell state with offset `s`: amplitude `amp` on every `|a, a + s mod 3>`.
pub open spec fn bell_vector<T>(s: int, zero: T, amp: T) -> Seq<T> {
    Seq::new(9, |i: int| if (i / 3 + s) % 3 == i % 3 {
        amp
    } else {
        zero
    })
}

/// A two-qutrit system with a 9-dimensional state vector; index `3i + j` is `|i, j>`.
#[derive(Clone, Debug)]
pub struct TwoQutrit<T> {
    pub state: [T; 9],
}

impl<T: Copy> TwoQutrit<T> {
    /// The product state `a (x) b`.
    pub fn from_qutrits<M: Fn(T, T) -> T>(a: &Qutrit<T>, b: &Qutrit<T>, zero: T, times: &M) -> (s:
        Self)
        requires
            functional2(*times),
        ensures
            s.state@ =~= product_state(*times, a.state@, b.state@),
            forall|k: int|
                0 <= k < 9 ==> #[trigger] called2(*times, a.state[k / 3], b.state[k % 3]),
    {
        let mut state = [zero; 9];
        for i in 0..3
            invariant
                functional2(*times),
                forall|k: int|
                    0 <= k < 9 && k / 3 < i ==> #[trigger] product_entry_done(
                        *times,
                        a.state@,
                        b.state@,
                        state,
                        k,
                    ),
        {
            for j in 0..3
                invariant
                    functional2(*times),
                    0 <= i < 3,
                    forall|k: int|
                        0 <= k < 9 && (k / 3 < i || (k / 3 == i && k % 3 < j))
                            ==> #[trigger] product_entry_done(*times, a.state@, b.state@, state, k),
            {
                let idx: usize = i * 3 + j;
                assert(idx as int / 3 == i && idx as int % 3 == j);
                let ghost prev = state;
                state[idx] = call2(times, a.state[i], b.state[j]);
                assert forall|k: int|
                    0 <= k < 9 && (k / 3 < i || (k / 3 == i && k % 3 <= j))
                        implies #[trigger] product_entry_done(*times, a.state@, b.state@, state, k) by {
                    if k != idx {
                        assert(product_entry_done(*times, a.state@, b.state@, prev, k));
                    }
                }
            }
        }
        assert forall|k: int| 0 <= k < 9 implies #[trigger] called2(
            *times,
            a.state[k / 3],
            b.state[k % 3],
        ) && state[k] == product_state(*times, a.state@, b.state@)[k] by {
            assert(product_entry_done(*times, a.state@, b.state@, state, k));
        }
        assert forall|k: int| 0 <= k < 9 implies state@[k] == product_state(
            *times,
            a.state@,
            b.state@,
        )[k] by {
            assert(product_entry_done(*times, a.state@, b.state@, state, k));
        }
        assert(state@ =~= product_state(*times, a.state@, b.state@));
        TwoQutrit { state }
    }

    /// Total probability: the sum of the nine norms, from `zero` on.
    pub fn total_probability<R, P: Fn(R, R) -> R, N: Fn(T) -> R>(
        &self,
        zero: R,
        plus: &P,
        norm: &N,
    ) -> (p: R)
        requires
            functional2(*plus),
            functional1(*norm),
        ensures
            p == sum_norms(*plus, *norm, zero, self.state@, 9),
            norms_called(*plus, *norm, zero, self.state@, 9),
    {
        sum_norms_exec(plus, norm, zero, &self.state)
    }

    /// Applies a 9x9 gate to the state.
    pub fn apply<P: Fn(T, T) -> T, M: Fn(T, T) -> T>(
        &mut self,
        gate: &[[T; 9]; 9],
        zero: T,
        plus: &P,
        times: &M,
    )
        requires
            functional2(*plus),
            functional2(*times),
        ensures
            final(self).state@ =~= mat_apply(*plus, *times, zero, 9, rows9(*gate), old(self).state@),
            forall|i: int|
                0 <= i < 9 ==> #[trigger] dot_called(
                    *plus,
                    *times,
                    zero,
                    rows9(*gate)[i],
                    old(self).state@,
                    9,
                ),
    {
        let mut new_state = [zero; 9];
        for i in 0..9
            invariant
                functional2(*plus),
                functional2(*times),
                forall|r: int|
                    0 <= r < i ==> new_state[r] == mat_apply(
                        *plus,
                        *times,
                        zero,
                        9,
                        rows9(*gate),
                        self.state@,
                    )[r],
                forall|r: int|
                    0 <= r < i ==> #[trigger] dot_called(
                        *plus,
                        *times,
                        zero,
                        rows9(*gate)[r],
                        self.state@,
                        9,
                    ),
        {
            let row = gate[i];
            assert(row@ =~= rows9(*gate)[i as int]);
            new_state[i] = dot_exec(plus, times, zero, &row, &self.state);
        }
        self.state = new_state;
    }

    /// Probability of measuring `|i, j>` with `idx = 3i + j`: the norm of amplitude `idx`.
    pub fn probability<R, N: Fn(T) -> R>(&self, idx: usize, norm: &N) -> (p: R)
        requires
            idx < 9,
            functional1(*norm),
        ensures
            p == op1(*norm, self.state[idx as int]),
            called1(*norm, self.state[idx as int]),
    {
        call1(norm, self.state[idx])
    }
}

/// The ternary Bell state `(|00> + |11> + |22>)/sqrt(3)`, with `amp = 1/sqrt(3)`.
pub fn bell_state_0<T: Copy>(zero: T, amp: T) -> (s: TwoQutrit<T>)
    ensures
        s.state@ =~= bell_vector(0, zero, amp),
{
    let mut state = [zero; 9];
    state[0] = amp;  // |00>
    state[4] = amp;  // |11>
    state[8] = amp;  // |22>
    TwoQutrit { state }
}

/// The ternary Bell state `(|01> + |12> + |20>)/sqrt(3)`, with `amp = 1/sqrt(3)`.
pub fn bell_state_1<T: Copy>(zero: T, amp: T) -> (s: TwoQutrit<T>)
    ensures
        s.state@ =~= bell_vector(1, zero, amp),
{
    let mut state = [zero; 9];
    state[1] = amp;  // |01>
    state[5] = amp;  // |12>
    state[6] = amp;  // |20>
    TwoQutrit { state }
}

/// The ternary Bell state `(|02> + |10> + |21>)/sqrt(3)`, with `amp = 1/sqrt(3)`.
pub fn bell_state_2<T: Copy>(zero: T, amp: T) -> (s: TwoQutrit<T>)
    ensures
        s.state@ =~= bell_vector(2, zero, amp),
{
    let mut state = [zero; 9];
    state[2] = amp;  // |02>
    state[3] = amp;  // |10>
    state[7] = amp;  // |21>
    TwoQutrit { state }
}

} // verus!
