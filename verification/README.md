# ternary_quantum

Qutrit simulation: generalized X/Z/H gates, ternary Pauli operators, the
quantum Fourier transform over Z/3Z for one and two qutrits, the two-qutrit
SUM (CNOT) gate, ternary Bell states, deterministic measurement and the
rank test for entanglement.

## Layout

- `src/` — the verified library (Verus). Every kernel is generic over the
  amplitude type and takes its arithmetic as closures; each contract states
  the result exactly in terms of those closures, and that every value is
  an answer the closures really gave.
  - `src/laws.rs` and `src/unit_laws.rs` prove laws whose premises are facts
    about finitely many named values (0 and 1 add and multiply exactly, act
    as units on given amplitudes, given powers of omega are cube roots of
    one): X^3 = I, Z^3 = I, SUM^3 = I, X|k> = |k+1>, X moves every
    amplitude, SUM|a,b> = |a,a+b>, the QFT is H (x) H, H then SUM on |0,0>
    is a Bell state, product states are not entangled, Bell states are,
    measuring a basis state is certain, a measurement never lands on a
    null outcome, H|0> is uniform, the identity is a unit.
  - `src/ring_laws.rs` proves laws for semiring arithmetic: (AB)v = A(Bv),
    (a (x) b)(p (x) q) = (ap) (x) (bq), the total of a product state is the
    product of the totals, and H and the two-qutrit QFT keep the total
    probability of basis states.
- `app/` — the double-precision front end: the `Complex` type over `f64`,
  the constants `omega = e^(2 pi i/3)`, `1/sqrt(3)`, `1/3`, and the gates and
  states with their usual signatures, each calling a kernel of `src/`.
- `tests/` — the kernels run with double-precision complex amplitudes and
  with exact integer amplitudes.
