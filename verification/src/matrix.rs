//! 3x3 matrices over an abstract amplitude type (single-qutrit gates).
//!
//! A matrix is viewed as a sequence of rows; `m@[i][j]` is `<i|M|j>`.
use vstd::prelude::*;

use crate::scalar::{call2, called2, dot, dot_called, dot_exec, functional2, op2};

verus! {

/// A 3x3 matrix; `data[row][col]` is the amplitude `<row|M|col>`.
#[derive(Clone, Debug)]
pub struct Matrix3<T> {
    pub data: [[T; 3]; 3],
}

impl<T> View for Matrix3<T> {
    type V = Seq<Seq<T>>;

    open spec fn view(&self) -> Seq<Seq<T>> {
        Seq::new(3, |i: int| Seq::new(3, |j: int| self.data[i][j]))
    }
}

/// A 9x9 array viewed as a sequence of rows.
pub open spec fn rows9<T>(d: [[T; 9]; 9]) -> Seq<Seq<T>> {
    Seq::new(9, |i: int| Seq::new(9, |j: int| d[i][j]))
}

/// Column `j` of a square matrix of side `n`.
pub open spec fn column<T>(m: Seq<Seq<T>>, n: nat, j: int) -> Seq<T> {
    Seq::new(n, |k: int| m[k][j])
}

/// Kronecker delta with the given zero and one.
pub open spec fn delta<T>(i: int, j: int, zero: T, one: T) -> T {
    if i == j {
        one
    } else {
        zero
    }
}

/// The `n x n` matrix with `one` on the diagonal and `zero` elsewhere.
pub open spec fn identity_matrix<T>(n: nat, zero: T, one: T) -> Seq<Seq<T>> {
    Seq::new(n, |i: int| Seq::new(n, |j: int| delta(i, j, zero, one)))
}

/// The `n x n` matrix with every entry `zero`.
pub open spec fn zero_matrix<T>(n: nat, zero: T) -> Seq<Seq<T>> {
    Seq::new(n, |i: int| Seq::new(n, |j: int| zero))
}

/// The product of two `n x n` matrices; each entry is accumulated from the
/// left as `((zero + a[i][0]*b[0][j]) + a[i][1]*b[1][j]) + ...`.
pub open spec fn mat_mul<T, P: Fn(T, T) -> T, M: Fn(T, T) -> T>(
    plus: P,
    times: M,
    zero: T,
    n: nat,
    a: Seq<Seq<T>>,
    b: Seq<Seq<T>>,
) -> Seq<Seq<T>> {
    Seq::new(n, |i: int| Seq::new(n, |j: int| dot(plus, times, zero, a[i], column(b, n, j), n)))
}

/// An `n x n` matrix applied to a vector of length `n`.
pub open spec fn mat_apply<T, P: Fn(T, T) -> T, M: Fn(T, T) -> T>(
    plus: P,
    times: M,
    zero: T,
    n: nat,
    a: Seq<Seq<T>>,
    v: Seq<T>,
) -> Seq<T> {
    Seq::new(n, |i: int| dot(plus, times, zero, a[i], v, n))
}

/// The Kronecker product of two 3x3 matrices: entry `(3*i1 + i2, 3*j1 + j2)`
/// is `a[i1][j1] * b[i2][j2]`.
pub open spec fn kron<T, M: Fn(T, T) -> T>(times: M, a: Seq<Seq<T>>, b: Seq<Seq<T>>) -> Seq<
    Seq<T>,
> {
    Seq::new(9, |r: int| Seq::new(9, |c: int| op2(times, a[r / 3][c / 3], b[r % 3][c % 3])))
}

fn column_of<T: Copy>(d: &[[T; 3]; 3], j: usize) -> (c: [T; 3])
    requires
        j < 3,
    ensures
        c@ == column(Matrix3 { data: *d }@, 3, j as int),
{
    let c = [d[0][j], d[1][j], d[2][j]];
    assert(c@ =~= column(Matrix3 { data: *d }@, 3, j as int));
    c
}

impl<T: Copy> Matrix3<T> {
    /// The identity matrix: `one` on the diagonal, `zero` elsewhere.
    pub fn identity(zero: T, one: T) -> (m: Self)
        ensures
            m@ =~~= identity_matrix(3, zero, one),
    {
        let mut m = Matrix3 { data: [[zero; 3]; 3] };
        for i in 0..3
            invariant
                forall|r: int, c: int|
                    0 <= r < 3 && 0 <= c < 3 ==> m.data[r][c] == (if r == c && r < i {
                        one
                    } else {
                        zero
                    }),
        {
            m.data[i][i] = one;
        }
        m
    }

    /// The matrix with every entry `zero`.
    pub fn zero(zero: T) -> (m: Self)
        ensures
            m@ =~~= zero_matrix(3, zero),
    {
        Matrix3 { data: [[zero; 3]; 3] }
    }

    /// The product `self * other`.
    pub fn mul<P: Fn(T, T) -> T, M: Fn(T, T) -> T>(
        &self,
        other: &Matrix3<T>,
        zero: T,
        plus: &P,
        times: &M,
    ) -> (r: Matrix3<T>)
        requires
            functional2(*plus),
            functional2(*times),
        ensures
            r@ =~~= mat_mul(*plus, *times, zero, 3, self@, other@),
            forall|i: int, j: int|
                0 <= i < 3 && 0 <= j < 3 ==> #[trigger] dot_called(
                    *plus,
                    *times,
                    zero,
                    self@[i],
                    column(other@, 3, j),
                    3,
                ),
    {
        let mut result = Matrix3::zero(zero);
        for i in 0..3
            invariant
                functional2(*plus),
                functional2(*times),
                forall|r: int, c: int|
                    0 <= r < i && 0 <= c < 3 ==> result.data[r][c] == mat_mul(
                        *plus,
                        *times,
                        zero,
                        3,
                        self@,
                        other@,
                    )[r][c],
                forall|r: int, c: int|
                    0 <= r < i && 0 <= c < 3 ==> #[trigger] dot_called(
                        *plus,
                        *times,
                        zero,
                        self@[r],
                        column(other@, 3, c),
                        3,
                    ),
        {
            for j in 0..3
                invariant
                    functional2(*plus),
                    functional2(*times),
                    0 <= i < 3,
                    forall|r: int, c: int|
                        (0 <= r < i && 0 <= c < 3) || (r == i && 0 <= c < j) ==> result.data[r][c]
                            == mat_mul(*plus, *times, zero, 3, self@, other@)[r][c],
                    forall|r: int, c: int|
                        (0 <= r < i && 0 <= c < 3) || (r == i && 0 <= c < j) ==> #[trigger] dot_called(
                            *plus,
                            *times,
                            zero,
                            self@[r],
                            column(other@, 3, c),
                            3,
                        ),
            {
                let col = column_of(&other.data, j);
                let row = self.data[i];
                assert(row@ =~= self@[i as int]);
                let e = dot_exec(plus, times, zero, &row, &col);
                result.data[i][j] = e;
            }
        }
        result
    }

    /// Applies the matrix to a 3-element state vector.
    pub fn apply<P: Fn(T, T) -> T, M: Fn(T, T) -> T>(
        &self,
        state: &[T; 3],
        zero: T,
        plus: &P,
        times: &M,
    ) -> (r: [T; 3])
        requires
            functional2(*plus),
            functional2(*times),
        ensures
            r@ =~= mat_apply(*plus, *times, zero, 3, self@, state@),
            forall|i: int|
                0 <= i < 3 ==> #[trigger] dot_called(*plus, *times, zero, self@[i], state@, 3),
    {
        let mut result = [zero; 3];
        for i in 0..3
            invariant
                functional2(*plus),
                functional2(*times),
                forall|r: int|
                    0 <= r < i ==> result[r] == mat_apply(*plus, *times, zero, 3, self@, state@)[r],
                forall|r: int|
                    0 <= r < i ==> #[trigger] dot_called(*plus, *times, zero, self@[r], state@, 3),
        {
            let row = self.data[i];
            assert(row@ =~= self@[i as int]);
            result[i] = dot_exec(plus, times, zero, &row, state);
        }
        result
    }

    /// The Kronecker product `self (x) other` as a 9x9 array.
    pub fn tensor<M: Fn(T, T) -> T>(&self, other: &Matrix3<T>, zero: T, times: &M) -> (r: [[T; 9]; 9])
        requires
            functional2(*times),
        ensures
            rows9(r) =~~= kron(*times, self@, other@),
            forall|row: int, col: int|
                0 <= row < 9 && 0 <= col < 9 ==> #[trigger] called2(
                    *times,
                    self@[row / 3][col / 3],
                    other@[row % 3][col % 3],
                ),
    {
        let mut result = [[zero; 9]; 9];
        for i1 in 0..3
            invariant
                functional2(*times),
                forall|row: int, col: int|
                    0 <= row < 9 && 0 <= col < 9 && row / 3 < i1 ==> #[trigger] kron_entry_done(
                        *times,
                        self@,
                        other@,
                        result,
                        row,
                        col,
                    ),
        {
            for j1 in 0..3
                invariant
                    functional2(*times),
                    0 <= i1 < 3,
                    forall|row: int, col: int|
                        0 <= row < 9 && 0 <= col < 9 && (row / 3 < i1 || (row / 3 == i1 && col / 3
                            < j1)) ==> #[trigger] kron_entry_done(
                            *times,
                            self@,
                            other@,
                            result,
                            row,
                            col,
                        ),
            {
                for i2 in 0..3
                    invariant
                        functional2(*times),
                        0 <= i1 < 3,
                        0 <= j1 < 3,
                        forall|row: int, col: int|
                            0 <= row < 9 && 0 <= col < 9 && (row / 3 < i1 || (row / 3 == i1 && col
                                / 3 < j1) || (row / 3 == i1 && col / 3 == j1 && row % 3 < i2))
                                ==> #[trigger] kron_entry_done(
                                *times,
                                self@,
                                other@,
                                result,
                                row,
                                col,
                            ),
                {
                    for j2 in 0..3
                        invariant
                            functional2(*times),
                            0 <= i1 < 3,
                            0 <= j1 < 3,
                            0 <= i2 < 3,
                            forall|row: int, col: int|
                                0 <= row < 9 && 0 <= col < 9 && (row / 3 < i1 || (row / 3 == i1
                                    && col / 3 < j1) || (row / 3 == i1 && col / 3 == j1 && row % 3
                                    < i2) || (row / 3 == i1 && col / 3 == j1 && row % 3 == i2
                                    && col % 3 < j2)) ==> #[trigger] kron_entry_done(
                                    *times,
                                    self@,
                                    other@,
                                    result,
                                    row,
                                    col,
                                ),
                    {
                        let ri: usize = i1 * 3 + i2;
                        let ci: usize = j1 * 3 + j2;
                        let e = call2(times, self.data[i1][j1], other.data[i2][j2]);
                        assert(ri as int / 3 == i1 && ri as int % 3 == i2);
                        assert(ci as int / 3 == j1 && ci as int % 3 == j2);
                        let ghost prev = result;
                        result[ri][ci] = e;
                        assert forall|row: int, col: int|
                            0 <= row < 9 && 0 <= col < 9 && (row / 3 < i1 || (row / 3 == i1 && col
                                / 3 < j1) || (row / 3 == i1 && col / 3 == j1 && row % 3 < i2) || (
                            row / 3 == i1 && col / 3 == j1 && row % 3 == i2 && col % 3 <= j2))
                            implies #[trigger] kron_entry_done(
                            *times,
                            self@,
                            other@,
                            result,
                            row,
                            col,
                        ) by {
                            if row != ri || col != ci {
                                assert(kron_entry_done(*times, self@, other@, prev, row, col));
                            }
                        }
                    }
                }
            }
        }
        assert forall|row: int, col: int| 0 <= row < 9 && 0 <= col < 9 implies rows9(result)[row][col]
            == kron(*times, self@, other@)[row][col] by {
            assert(kron_entry_done(*times, self@, other@, result, row, col));
        }
        assert forall|row: int, col: int| 0 <= row < 9 && 0 <= col < 9 implies #[trigger] called2(
            *times,
            self@[row / 3][col / 3],
            other@[row % 3][col % 3],
        ) by {
            assert(kron_entry_done(*times, self@, other@, result, row, col));
        }
        result
    }
}

/// Entry `(row, col)` of `r` is that of the Kronecker product, computed by a real call.
pub open spec fn kron_entry_done<T, M: Fn(T, T) -> T>(
    times: M,
    a: Seq<Seq<T>>,
    b: Seq<Seq<T>>,
    r: [[T; 9]; 9],
    row: int,
    col: int,
) -> bool {
    &&& r[row][col] == kron(times, a, b)[row][col]
    &&& called2(times, a[row / 3][col / 3], b[row % 3][col % 3])
}

} // verus!
