//! Verified core of a tag (pursuit/evasion) simulation on a bounded 2D plane.
//!
//! One player is "it" and chases the player nearest to it; everyone else
//! flees. The library owns the world state, the per-player decision rule and
//! the boundary-redirection geometry that keeps a runner at full speed while
//! never leaving the play area. Coordinates are fixed-point integers in
//! thousandths of a world unit, so every geometric step is exact and checked.

pub mod agent;
pub mod environment;
pub mod geometry;
pub mod simulation;
pub mod viewer;
