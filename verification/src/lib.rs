//! Rule engine for a multiplayer, round-based betting board game. Every
//! transition is a pure, deterministic function of (state, caller, action,
//! timestamp), so independent re-execution from a serialized state reproduces
//! identical results; the only randomness is a seeded generator stored in the
//! state. The transition relation is stated in `transition`, implemented and
//! proved in `engine` and `handlers`, and its cross-cutting laws — coin
//! conservation, replayability, the betting and manifest rules — are proved
//! in `laws`.
pub mod dice;
pub mod engine;
pub mod handlers;
pub mod laws;
pub mod transition;
pub mod types;
