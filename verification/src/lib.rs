//! Provable state-transition core of a Merkle-committed balance ledger.
//!
//! The library owns everything that can be stated and checked over plain
//! values: canonical Goldilocks field arithmetic, the position ledger and the
//! sequencer that replays operations against it, the bit decomposition of a
//! position index, witness assignment for the state-transition circuit
//! template, the ordered public-input layout, and the size normalization and
//! shape checks of recursive composition. The constraint-satisfaction engine
//! itself (hash arithmetization, proof generation and verification) is an
//! external collaborator and stays outside the library.

pub mod bits;
pub mod field;
pub mod merkle;
pub mod recursive;
pub mod sequencer;
pub mod transition;
pub mod types;
