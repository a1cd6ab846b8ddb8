//! Quantum-inspired computing with ternary states (qutrits): gates, states,
//! entanglement and the quantum Fourier transform over Z/3Z.
//!
//! Every kernel is generic over the amplitude type `T` and receives its
//! arithmetic (sum, product, difference, norm, comparison) as closures, so
//! that the index structure of each gate and state is proved once for any
//! arithmetic:
//!
//! - `scalar`: closures as functions (`op1`, `op2`), the facts that a value
//!   is an answer a closure really gave (`called1`, `called2`), and inner
//!   products;
//! - `matrix`: 3x3 matrices, their product, application and Kronecker product;
//! - `gates`: X, X^2, Z, H, the Pauli operators, the QFTs and the SUM gate;
//! - `state`: single and two-qutrit states, probabilities and measurement;
//! - `entangle`: the rank test for two-qutrit entanglement;
//! - `laws`: permutation gates, basis states, measurement and probability
//!   laws, for arithmetic exact on `zero` and `one`;
//! - `unit_laws`: laws for arithmetic in which `zero` and `one` act as
//!   units on the amplitudes involved (identity, diagonal and QFT products,
//!   H then SUM, product states);
//! - `ring_laws`: laws for semiring arithmetic: applying a product of gates,
//!   a Kronecker product on a product state, totals of product states, and
//!   gates that keep the total probability of basis states.
use vstd::prelude::*;

pub mod entangle;
pub mod gates;
pub mod laws;
pub mod matrix;
pub mod ring_laws;
pub mod scalar;
pub mod state;
pub mod unit_laws;

verus! {

} // verus!
