//! A small society simulation: interest groups made of weighted subgroups,
//! each carrying a mood, perturbed turn by turn by scripted issues that add
//! deltas to the moods of subgroups matched by name.
//!
//! All quantities are fixed-point integers in millionths: a ratio or mood of
//! `1.0` is stored as `SCALE` (1_000_000). Arithmetic on moods saturates at
//! `MOOD_LIMIT`; everything else is exact integer arithmetic, so the
//! aggregation contracts are exact.

pub mod game;
pub mod interest_group;
pub mod issue;
pub mod num;
pub mod page;
mod rng;
pub mod society;
pub mod subgroup;
