//! The rules of a number-guessing puzzle. A secret number is drawn, and with
//! it a pool of conditions that the secret meets. The player guesses; each
//! guess is judged against the conditions shown so far, and a further
//! condition is revealed only while the guess meets all that is shown. The
//! game is won when every condition is shown and met.
//!
//! Every function here is verified against a contract over plain values,
//! but for the draws of the random source in `random`, which are believed.

/// The kinds of condition and their evaluation.
pub mod condition;
/// The sentence that describes a condition.
pub mod describe;
/// Decimal digits and the predicates built on them.
pub mod digits;
/// Divisibility and lists of divisors.
pub mod divisors;
/// Templates and their concrete instances.
pub mod instantiate;
/// Reading a guess from text.
pub mod parse;
/// Revealing conditions and ordering the shown ones.
pub mod progress;
/// Random draws.
pub mod random;
/// Perfect squares and cubes.
pub mod roots;
/// The game session.
pub mod session;
