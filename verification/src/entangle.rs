//! Entanglement detection for two-qutrit states by the rank test.
//!
//! Arrange the amplitudes as the 3x3 matrix `A[i][j] = <ij|psi>`; the state
//! is entangled when some 2x2 minor of `A` is significant (non-zero, up to the
//! tolerance that the caller's `significant` closure applies).
use vstd::prelude::*;

use crate::scalar::{call1, call2, called1, called2, functional1, functional2, op1, op2};
use crate::state::TwoQutrit;

verus! {

/// The 2x2 minor of the amplitude matrix on rows `r1, r2` and columns `c1, c2`:
/// `A[r1][c1] * A[r2][c2] - A[r1][c2] * A[r2][c1]`.
pub open spec fn minor<T, S: Fn(T, T) -> T, M: Fn(T, T) -> T>(
    minus: S,
    times: M,
    s: Seq<T>,
    r1: int,
    r2: int,
    c1: int,
    c2: int,
) -> T {
    op2(
        minus,
        op2(times, s[3 * r1 + c1], s[3 * r2 + c2]),
        op2(times, s[3 * r1 + c2], s[3 * r2 + c1]),
    )
}

/// Rows `r1` and `r2` give a significant minor for some pair of columns.
pub open spec fn significant_minor_on_rows<T, S: Fn(T, T) -> T, M: Fn(T, T) -> T, G: Fn(T) -> bool>(
    minus: S,
    times: M,
    significant: G,
    s: Seq<T>,
    r1: int,
    r2: int,
) -> bool {
    exists|c1: int, c2: int|
        0 <= c1 < c2 < 3 && #[trigger] op1(significant, minor(minus, times, s, r1, r2, c1, c2))
}

/// Some 2x2 minor of the amplitude matrix is significant.
pub open spec fn entangled<T, S: Fn(T, T) -> T, M: Fn(T, T) -> T, G: Fn(T) -> bool>(
    minus: S,
    times: M,
    significant: G,
    s: Seq<T>,
) -> bool {
    exists|r1: int, r2: int|
        0 <= r1 < r2 < 3 && #[trigger] significant_minor_on_rows(minus, times, significant, s, r1, r2)
}

/// Both products, their difference and the significance of the minor on
/// rows `r1, r2` and columns `c1, c2` are answers that the closures really give.
pub open spec fn minor_called<T, S: Fn(T, T) -> T, M: Fn(T, T) -> T, G: Fn(T) -> bool>(
    minus: S,
    times: M,
    significant: G,
    s: Seq<T>,
    r1: int,
    r2: int,
    c1: int,
    c2: int,
) -> bool {
    &&& called2(times, s[3 * r1 + c1], s[3 * r2 + c2])
    &&& called2(times, s[3 * r1 + c2], s[3 * r2 + c1])
    &&& called2(
        minus,
        op2(times, s[3 * r1 + c1], s[3 * r2 + c2]),
        op2(times, s[3 * r1 + c2], s[3 * r2 + c1]),
    )
    &&& called1(significant, minor(minus, times, s, r1, r2, c1, c2))
}

/// The minor was computed by real calls and found not significant.
pub open spec fn minor_cleared<T, S: Fn(T, T) -> T, M: Fn(T, T) -> T, G: Fn(T) -> bool>(
    minus: S,
    times: M,
    significant: G,
    s: Seq<T>,
    r1: int,
    r2: int,
    c1: int,
    c2: int,
) -> bool {
    &&& minor_called(minus, times, significant, s, r1, r2, c1, c2)
    &&& !op1(significant, minor(minus, times, s, r1, r2, c1, c2))
}

/// Every minor on rows `r1, r2` was computed by real calls and found not significant.
pub open spec fn rows_cleared<T, S: Fn(T, T) -> T, M: Fn(T, T) -> T, G: Fn(T) -> bool>(
    minus: S,
    times: M,
    significant: G,
    s: Seq<T>,
    r1: int,
    r2: int,
) -> bool {
    forall|c1: int, c2: int|
        0 <= c1 < c2 < 3 ==> #[trigger] minor_cleared(minus, times, significant, s, r1, r2, c1, c2)
}

/// Some minor was computed by real calls and found significant.
pub open spec fn found_significant<T, S: Fn(T, T) -> T, M: Fn(T, T) -> T, G: Fn(T) -> bool>(
    minus: S,
    times: M,
    significant: G,
    s: Seq<T>,
) -> bool {
    exists|r1: int, r2: int, c1: int, c2: int|
        0 <= r1 < r2 < 3 && 0 <= c1 < c2 < 3 && #[trigger] minor_called(
            minus,
            times,
            significant,
            s,
            r1,
            r2,
            c1,
            c2,
        ) && op1(significant, minor(minus, times, s, r1, r2, c1, c2))
}

fn minor_exec<T: Copy, S: Fn(T, T) -> T, M: Fn(T, T) -> T, G: Fn(T) -> bool>(
    minus: &S,
    times: &M,
    significant: &G,
    s: &[T; 9],
    r1: usize,
    r2: usize,
    c1: usize,
    c2: usize,
) -> (b: bool)
    requires
        functional2(*minus),
        functional2(*times),
        functional1(*significant),
        r1 < 3,
        r2 < 3,
        c1 < 3,
        c2 < 3,
    ensures
        b == op1(
            *significant,
            minor(*minus, *times, s@, r1 as int, r2 as int, c1 as int, c2 as int),
        ),
        minor_called(*minus, *times, *significant, s@, r1 as int, r2 as int, c1 as int, c2 as int),
{
    let p = call2(times, s[3 * r1 + c1], s[3 * r2 + c2]);
    let q = call2(times, s[3 * r1 + c2], s[3 * r2 + c1]);
    let det = call2(minus, p, q);
    call1(significant, det)
}

/// Checks the three minors on rows `r1` and `r2`.
fn rows_have_significant_minor<T: Copy, S: Fn(T, T) -> T, M: Fn(T, T) -> T, G: Fn(T) -> bool>(
    minus: &S,
    times: &M,
    significant: &G,
    s: &[T; 9],
    r1: usize,
    r2: usize,
) -> (b: bool)
    requires
        functional2(*minus),
        functional2(*times),
        functional1(*significant),
        r1 < 3,
        r2 < 3,
    ensures
        b == significant_minor_on_rows(*minus, *times, *significant, s@, r1 as int, r2 as int),
        b ==> exists|c1: int, c2: int|
            0 <= c1 < c2 < 3 && #[trigger] minor_called(
                *minus,
                *times,
                *significant,
                s@,
                r1 as int,
                r2 as int,
                c1,
                c2,
            ) && op1(*significant, minor(*minus, *times, s@, r1 as int, r2 as int, c1, c2)),
        !b ==> rows_cleared(*minus, *times, *significant, s@, r1 as int, r2 as int),
{
    for c1 in 0..3
        invariant
            functional2(*minus),
            functional2(*times),
            functional1(*significant),
            r1 < 3,
            r2 < 3,
            forall|x: int, y: int|
                0 <= x < c1 && x < y < 3 ==> #[trigger] minor_cleared(
                    *minus,
                    *times,
                    *significant,
                    s@,
                    r1 as int,
                    r2 as int,
                    x,
                    y,
                ),
    {
        for c2 in (c1 + 1)..3
            invariant
                functional2(*minus),
                functional2(*times),
                functional1(*significant),
                r1 < 3,
                r2 < 3,
                c1 < 3,
                forall|x: int, y: int|
                    (0 <= x < c1 && x < y < 3) || (x == c1 && c1 < y < c2)
                        ==> #[trigger] minor_cleared(
                        *minus,
                        *times,
                        *significant,
                        s@,
                        r1 as int,
                        r2 as int,
                        x,
                        y,
                    ),
        {
            if minor_exec(minus, times, significant, s, r1, r2, c1, c2) {
                assert(minor_called(
                    *minus,
                    *times,
                    *significant,
                    s@,
                    r1 as int,
                    r2 as int,
                    c1 as int,
                    c2 as int,
                ));
                return true;
            }
        }
    }
    proof {
        assert forall|x: int, y: int| 0 <= x < y < 3 implies !#[trigger] op1(
            *significant,
            minor(*minus, *times, s@, r1 as int, r2 as int, x, y),
        ) by {
            assert(minor_cleared(*minus, *times, *significant, s@, r1 as int, r2 as int, x, y));
        }
    }
    false
}

/// The state is entangled: its 3x3 amplitude matrix has a significant 2x2
/// minor (rank greater than 1).  `significant` decides whether a minor
/// counts as non-zero.  When the answer is no, every minor was computed;
/// when it is yes, a significant one was.
pub fn is_entangled<T: Copy, S: Fn(T, T) -> T, M: Fn(T, T) -> T, G: Fn(T) -> bool>(
    state: &TwoQutrit<T>,
    minus: &S,
    times: &M,
    significant: &G,
) -> (b: bool)
    requires
        functional2(*minus),
        functional2(*times),
        functional1(*significant),
    ensures
        b == entangled(*minus, *times, *significant, state.state@),
        b ==> found_significant(*minus, *times, *significant, state.state@),
        !b ==> forall|r1: int, r2: int|
            0 <= r1 < r2 < 3 ==> #[trigger] rows_cleared(
                *minus,
                *times,
                *significant,
                state.state@,
                r1,
                r2,
            ),
{
    for r1 in 0..3
        invariant
            functional2(*minus),
            functional2(*times),
            functional1(*significant),
            forall|x: int, y: int|
                0 <= x < r1 && x < y < 3 ==> #[trigger] rows_cleared(
                    *minus,
                    *times,
                    *significant,
                    state.state@,
                    x,
                    y,
                ),
    {
        for r2 in (r1 + 1)..3
            invariant
                functional2(*minus),
                functional2(*times),
                functional1(*significant),
                r1 < 3,
                forall|x: int, y: int|
                    (0 <= x < r1 && x < y < 3) || (x == r1 && r1 < y < r2)
                        ==> #[trigger] rows_cleared(
                        *minus,
                        *times,
                        *significant,
                        state.state@,
                        x,
                        y,
                    ),
        {
            if rows_have_significant_minor(minus, times, significant, &state.state, r1, r2) {
                return true;
            }
        }
    }
    proof {
        assert forall|x: int, y: int| 0 <= x < y < 3 implies !#[trigger] significant_minor_on_rows(
            *minus,
            *times,
            *significant,
            state.state@,
            x,
            y,
        ) by {
            assert(rows_cleared(*minus, *times, *significant, state.state@, x, y));
            assert forall|c1: int, c2: int| 0 <= c1 < c2 < 3 implies !#[trigger] op1(
                *significant,
                minor(*minus, *times, state.state@, x, y, c1, c2),
            ) by {
                assert(minor_cleared(*minus, *times, *significant, state.state@, x, y, c1, c2));
            }
        }
    }
    false
}

} // verus!
