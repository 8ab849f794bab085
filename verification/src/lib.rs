//! Two small on-chain state machines, verified.
//!
//! The first engine keeps a staked study commitment: a student locks a stake,
//! declares a duration and a keystroke target, and later either redeems the
//! stake with a bonus on proven completion or forfeits it. The second engine
//! keeps a trivia contest: failed hash attempts pay a fixed fee into a prize
//! pool, a bounded leaderboard ranks players, and the top player may claim the
//! pool once it reaches a minimum.
//!
//! The host runtime supplies caller identity, the clock, persistent record
//! slots and balance transfers; this crate holds the transition rules, the
//! record and instruction codecs, and the invariants that every transition
//! preserves.

pub mod codec;
pub mod envelope;
pub mod identity;
pub mod laws;
pub mod session;
pub mod trivia;
