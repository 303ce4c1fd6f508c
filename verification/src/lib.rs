//! A fair multi-party card-draw protocol built from a commit-reveal
//! message board and a VRF-based card-value generator.
//!
//! Mutually distrusting participants jointly produce an unbiased, auditable
//! card draw: each posts a binding commitment to a public message board, the
//! commitments are folded into a shared seed no single participant controls,
//! and each participant evaluates a verifiable random function over that seed
//! to obtain a card value anyone can check.

pub mod game;
pub mod hashing;
pub mod integrity;
pub mod message_board;
pub mod seed;
pub mod vrf;
