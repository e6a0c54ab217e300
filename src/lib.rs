//! Deduction engine for a three-digit code-breaking puzzle: constraints are
//! bitsets over the 125 codes, and the solver narrows each verifier's pool of
//! candidate constraints until the secret code is pinned down.

pub mod code;
pub mod constraint;
pub mod problem;
pub mod assignment;
pub mod solve;
pub mod heuristic;
pub mod cards;
