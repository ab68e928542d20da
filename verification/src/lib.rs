//! A lazy pull-based sequence layer over suspendable computations.
//!
//! A suspendable computation is a resumable state machine: each `resume`
//! call either hands out one value and pauses, or finishes with a final
//! result. This crate provides the suspension contract itself
//! ([`gentrait::GenTrait`]), a pinning capability for computations whose
//! state must keep a stable address while suspended ([`aspin`]), wrappers
//! that expose a computation through the pull protocol
//! `next() -> Option<Item>` ([`geniter::GenIter`] and [`gentrait::Iter`]),
//! combinators that compose computations ([`gentrait::Transform`],
//! [`gentrait::Filter`]), and a set of sequence constructors ([`iter`]).

pub mod aspin;
pub mod geniter;
pub mod gentrait;
pub mod iter;
