//! The core of an interactive digital-logic simulator: an id-addressed
//! arena of gates, ports and wires; the semantics of the primitive gate
//! kinds; a propagation engine that advances the circuit by one clocked
//! evaluation cycle; the state machine that turns clicks into legal
//! rewiring; and a composer that captures a circuit as a reusable chip.
use vstd::prelude::*;

pub mod kind;
pub mod primitive;
pub mod element;
pub mod arena;
pub mod engine;
pub mod interaction;
pub mod laws;
pub mod chip;
pub mod removal;
pub mod geometry;
pub mod listing;

verus! {

} // verus!
