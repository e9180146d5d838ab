//! Entropy accounting and strength classification.
//!
//! All quantities are in millibits (thousandths of a bit).

use vstd::prelude::*;

verus! {

/// Entropy contributed by one uniformly random decimal digit:
/// `1000 * log2(10)`, rounded to the nearest millibit.
pub const DIGIT_ENTROPY_MILLIBITS: u64 = 3322;

/// Lower bound of the "decent" strength band: 70 bits.
pub const DECENT_MILLIBITS: u64 = 70000;

/// Lower bound of the "good" strength band: 95 bits.
pub const GOOD_MILLIBITS: u64 = 95000;

/// Lower bound of the "paranoid" strength band: 120 bits.
pub const PARANOID_MILLIBITS: u64 = 120000;

/// Entropy of a passphrase of `word_count` words drawn uniformly from a
/// wordlist whose words carry `bits_per_word_millibits` millibits each.
pub fn calculate_entropy(bits_per_word_millibits: u64, word_count: u64) -> (e: u64)
    requires
        bits_per_word_millibits * word_count <= u64::MAX,
    ensures
        e == bits_per_word_millibits * word_count,
{
    bits_per_word_millibits * word_count
}

/// Qualitative strength of a passphrase, judged by its entropy.
#[derive(Clone, Copy, Debug, PartialEq, Eq, Structural)]
pub enum Strength {
    NotSecure,
    Decent,
    Good,
    Paranoid,
}

/// The strength band that an entropy of `e` millibits falls in.
/// Each band is inclusive on its lower bound.
pub open spec fn classify_spec(e: int) -> Strength {
    if e < DECENT_MILLIBITS {
        Strength::NotSecure
    } else if e < GOOD_MILLIBITS {
        Strength::Decent
    } else if e < PARANOID_MILLIBITS {
        Strength::Good
    } else {
        Strength::Paranoid
    }
}

/// Classify an entropy value, in millibits, into its strength band.
pub fn classify(entropy_millibits: u64) -> (s: Strength)
    ensures
        s == classify_spec(entropy_millibits as int),
{
    if entropy_millibits < DECENT_MILLIBITS {
        Strength::NotSecure
    } else if entropy_millibits < GOOD_MILLIBITS {
        Strength::Decent
    } else if entropy_millibits < PARANOID_MILLIBITS {
        Strength::Good
    } else {
        Strength::Paranoid
    }
}

impl Strength {
    /// The human-readable label of this strength band.
    pub open spec fn label_spec(self) -> Seq<char> {
        match self {
            Strength::NotSecure => "not secure"@,
            Strength::Decent => "decent"@,
            Strength::Good => "good"@,
            Strength::Paranoid => "paranoid"@,
        }
    }

    /// The human-readable label of this strength band.
    pub fn label(&self) -> (r: &'static str)
        ensures
            r@ == self.label_spec(),
    {
        match self {
            Strength::NotSecure => "not secure",
            Strength::Decent => "decent",
            Strength::Good => "good",
            Strength::Paranoid => "paranoid",
        }
    }
}

} // verus!
