//! A diceware-style passphrase generator with a verified core.
//!
//! The library assembles a passphrase by drawing words uniformly at random
//! from a wordlist, optionally capitalizing each word, optionally inserting
//! one random decimal digit at a random position, and joining the tokens
//! with a delimiter.  It tracks the entropy of the result and classifies
//! its strength.
//!
//! Entropy is accounted in *millibits* (thousandths of a bit) so that the
//! whole computation is exact integer arithmetic: a wordlist of `N` words
//! contributes `floor(1000 * log2(N))` millibits per word, and the digit
//! contributes `1000 * log2(10) ≈ 3322` millibits.  The per-word figure is
//! supplied by the caller, since the logarithm itself is not computed here.

pub mod assemble;
pub mod capitalize;
pub mod entropy;
pub mod join;
mod rng;
pub mod wordlist;

pub use assemble::Config;
pub use assemble::Passphrase;
pub use assemble::generate;
pub use capitalize::to_capitalized;
pub use entropy::Strength;
pub use entropy::calculate_entropy;
pub use entropy::classify;
pub use wordlist::PassphraseError;
pub use wordlist::Wordlist;
pub use wordlist::filter_wordlist;
