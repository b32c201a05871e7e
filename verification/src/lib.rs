//! A reward-escrow puzzle protocol.
//!
//! A creator escrows a fixed reward behind an *answer credential* derived from
//! a puzzle's secret solution. A solver who presents that credential becomes
//! entitled to claim the reward, and claiming is a two-phase asynchronous
//! settlement: an external transfer (optionally preceded by provisioning a new
//! recipient identity) is initiated, and a continuation finalizes the puzzle
//! or leaves it claimable again when the external call fails.
//!
//! The crate is organised after the protocol's components:
//! - [`registry`]: the credential registry mapping answer credentials to puzzles;
//! - [`index`]: the set of credentials whose puzzle still awaits a solver;
//! - [`caps`]: single-purpose, revocable capability tokens gating each step;
//! - [`settlement`]: pending external settlements and their outcomes;
//! - [`json`]: decoding of the boolean payload an identity-provisioning call returns;
//! - [`contract`]: the puzzle state machine and the claim orchestrator.

pub mod caps;
pub mod contract;
pub mod errors;
pub mod index;
pub mod json;
pub mod puzzle;
pub mod registry;
pub mod settlement;
