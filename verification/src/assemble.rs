//! Passphrase assembly: the selection loop with its two termination modes,
//! the optional insertion of one random digit, and rendering.

use vstd::prelude::*;

use crate::capitalize;
use crate::capitalize::capitalized;
use crate::entropy::DIGIT_ENTROPY_MILLIBITS;
use crate::entropy::calculate_entropy;
use crate::join;
use crate::rng;
use crate::wordlist::Wordlist;

verus! {

/// The configuration of one passphrase run, resolved once before assembly.
pub struct Config {
    /// Fixed word-count mode when `Some`: assembly stops once this many
    /// words stand in the passphrase (it always draws at least one).
    /// When `None`, the minimum-entropy threshold governs instead.
    pub words: Option<usize>,
    /// Minimum entropy threshold, in millibits; governs termination when
    /// `words` is `None`.
    pub min_entropy_millibits: u64,
    /// Longest accepted word, in characters, for wordlist filtering.
    pub max_word_length: usize,
    /// Capitalize each drawn word.
    pub capitalize: bool,
    /// Insert one random decimal digit at a random position at the end.
    pub append_number: bool,
    /// The string put between consecutive tokens.
    pub delimiter: String,
    /// Suppress the strength report.  A display concern: assembly
    /// ignores it.
    pub quiet: bool,
}

impl Config {
    /// The entropy the selection loop must reach before it stops, in
    /// millibits.  When a digit will be inserted afterwards, its fixed
    /// contribution is deducted from the configured threshold up front so
    /// that the final total does not overshoot; the deduction saturates
    /// at zero.
    pub open spec fn effective_threshold_millibits(&self) -> int {
        if self.append_number {
            if self.min_entropy_millibits >= DIGIT_ENTROPY_MILLIBITS {
                self.min_entropy_millibits - DIGIT_ENTROPY_MILLIBITS
            } else {
                0
            }
        } else {
            self.min_entropy_millibits as int
        }
    }

    /// How many words fixed-count mode yields: the target, except that the
    /// loop always draws at least one word.
    pub open spec fn fixed_word_count(&self) -> int
        recommends
            self.words is Some,
    {
        if self.words->0 >= 1 {
            self.words->0 as int
        } else {
            1
        }
    }
}

/// The character of the decimal digit `d`.
pub open spec fn digit_char(d: int) -> char {
    if d == 0 {
        '0'
    } else if d == 1 {
        '1'
    } else if d == 2 {
        '2'
    } else if d == 3 {
        '3'
    } else if d == 4 {
        '4'
    } else if d == 5 {
        '5'
    } else if d == 6 {
        '6'
    } else if d == 7 {
        '7'
    } else if d == 8 {
        '8'
    } else {
        '9'
    }
}

/// `t` is a token that drawing from the wordlist `wl` can produce under
/// the given capitalization setting.
pub open spec fn is_word_token(t: Seq<char>, wl: Seq<Seq<char>>, capitalize: bool) -> bool {
    exists|k: int|
        0 <= k < wl.len() && t == (if capitalize {
            capitalized(wl[k])
        } else {
            wl[k]
        })
}

/// `t` is the one-character token of a decimal digit.
pub open spec fn is_digit_token(t: Seq<char>) -> bool {
    exists|d: int| 0 <= d < 10 && t == seq![digit_char(d)]
}

/// One assembled passphrase.
pub struct Passphrase {
    /// The tokens in final order: the drawn words and, if configured, one
    /// digit.
    pub tokens: Vec<String>,
    /// The total entropy of the random choices made, in millibits.
    pub entropy_millibits: u64,
}

impl Passphrase {
    /// The passphrase string: all tokens joined with the delimiter.
    pub fn render(&self, delimiter: &str) -> (r: String)
        ensures
            r@ == join::join_with(self.tokens.deep_view(), delimiter@),
    {
        join::join(&self.tokens, delimiter)
    }
}

/// The one-character string of the decimal digit `d`.
fn digit_token(d: usize) -> (t: String)
    requires
        d < 10,
    ensures
        t@ == seq![digit_char(d as int)],
{
    let c: char = match d {
        0 => '0',
        1 => '1',
        2 => '2',
        3 => '3',
        4 => '4',
        5 => '5',
        6 => '6',
        7 => '7',
        8 => '8',
        _ => '9',
    };
    let mut t = String::new();
    capitalize::push_char(&mut t, c);
    proof {
        assert(t@ =~= seq![digit_char(d as int)]);
    }
    t
}

/// Assemble one passphrase.
///
/// Words are drawn uniformly at random from the wordlist, capitalized if
/// so configured, and appended until the termination policy is met: a
/// fixed word count when `config.words` is set, the effective entropy
/// threshold otherwise.  Then, if so configured, one random decimal digit
/// is inserted at a position drawn uniformly from all `word count + 1`
/// positions, and its fixed entropy contribution is added.
///
/// `bits_per_word_millibits` is the entropy of one draw, in millibits:
/// `1000 * log2(wordlist.len())`, rounded, as the caller computes it.  In
/// minimum-entropy mode it must be positive — a one-word pool gains no
/// entropy per draw and the loop could never meet a positive threshold.
/// The remaining bounds only keep the entropy sum inside its integer type.
pub fn generate(wordlist: &Wordlist, config: &Config, bits_per_word_millibits: u64) -> (p:
    Passphrase)
    requires
        config.words is Some ==> config.words->0 < usize::MAX,
        config.words is Some ==> config.fixed_word_count() * bits_per_word_millibits
            + DIGIT_ENTROPY_MILLIBITS <= u64::MAX,
        config.words is None ==> bits_per_word_millibits >= 1,
        config.words is None ==> config.min_entropy_millibits + bits_per_word_millibits
            + DIGIT_ENTROPY_MILLIBITS <= usize::MAX,
    ensures
        ({
            let word_count = p.tokens@.len() - (if config.append_number {
                1int
            } else {
                0int
            });
            &&& word_count >= 1
            &&& p.entropy_millibits == word_count * bits_per_word_millibits + (
            if config.append_number {
                DIGIT_ENTROPY_MILLIBITS as int
            } else {
                0int
            })
            &&& config.words is Some ==> word_count == config.fixed_word_count()
            &&& config.words is None ==> word_count * bits_per_word_millibits
                >= config.effective_threshold_millibits()
            &&& config.words is None ==> p.entropy_millibits >= config.min_entropy_millibits
            &&& config.words is None && word_count > 1 ==> (word_count - 1)
                * bits_per_word_millibits < config.effective_threshold_millibits()
            &&& config.append_number ==> exists|idx: int|
                {
                    &&& 0 <= idx < p.tokens@.len()
                    &&& is_digit_token(#[trigger] p.tokens@[idx]@)
                    &&& forall|j: int|
                        0 <= j < p.tokens@.len() && j != idx ==> is_word_token(
                            #[trigger] p.tokens@[j]@,
                            wordlist@,
                            config.capitalize,
                        )
                }
            &&& !config.append_number ==> forall|j: int|
                0 <= j < p.tokens@.len() ==> is_word_token(
                    #[trigger] p.tokens@[j]@,
                    wordlist@,
                    config.capitalize,
                )
        }),
{
    let ghost wl = wordlist@;
    let ghost eff = config.effective_threshold_millibits();
    let n = wordlist.len();
    let mut tokens: Vec<String> = Vec::new();
    let mut count: usize = 0;
    let mut entropy: u64 = 0;
    let mut done = false;
    while !done
        invariant
            wordlist@ == wl,
            n == wl.len(),
            n > 0,
            eff == config.effective_threshold_millibits(),
            tokens@.len() == count,
            entropy == count * bits_per_word_millibits,
            forall|j: int|
                0 <= j < tokens@.len() ==> is_word_token(
                    #[trigger] tokens@[j]@,
                    wl,
                    config.capitalize,
                ),
            config.words is Some ==> config.words->0 < usize::MAX,
            config.words is Some ==> config.fixed_word_count() * bits_per_word_millibits
                + DIGIT_ENTROPY_MILLIBITS <= u64::MAX,
            config.words is Some ==> count <= config.fixed_word_count(),
            config.words is Some ==> (done <==> count == config.fixed_word_count()),
            config.words is None ==> bits_per_word_millibits >= 1,
            config.words is None ==> config.min_entropy_millibits + bits_per_word_millibits
                + DIGIT_ENTROPY_MILLIBITS <= usize::MAX,
            config.words is None ==> (count > 1 ==> (count - 1) * bits_per_word_millibits < eff),
            config.words is None ==> (done <==> (count >= 1 && entropy >= eff)),
            done ==> count >= 1,
        decreases (if config.words is Some {
            config.fixed_word_count() - count
        } else if done {
            0int
        } else {
            eff + bits_per_word_millibits - entropy
        }),
    {
        let idx = rng::random_below(n);
        let word = wordlist.word_at(idx);
        let token = if config.capitalize {
            capitalize::to_capitalized(word.as_str())
        } else {
            word.clone()
        };
        proof {
            assert(token@ == (if config.capitalize {
                capitalized(wl[idx as int])
            } else {
                wl[idx as int]
            }));
            assert(is_word_token(token@, wl, config.capitalize));
        }
        tokens.push(token);
        proof {
            if config.words is Some {
                assert(count < config.fixed_word_count());
                assert((count + 1) * bits_per_word_millibits <= config.fixed_word_count()
                    * bits_per_word_millibits) by (nonlinear_arith)
                    requires
                        count + 1 <= config.fixed_word_count(),
                        bits_per_word_millibits >= 0,
                ;
            } else {
                if count >= 1 {
                    assert(entropy < eff);
                    assert(count <= count * bits_per_word_millibits) by (nonlinear_arith)
                        requires
                            count >= 0,
                            bits_per_word_millibits >= 1,
                    ;
                }
                assert((count + 1) * bits_per_word_millibits == count * bits_per_word_millibits
                    + bits_per_word_millibits) by (nonlinear_arith);
            }
        }
        count = count + 1;
        entropy = calculate_entropy(bits_per_word_millibits, count as u64);
        match config.words {
            Some(w) => {
                if count >= w {
                    done = true;
                }
            },
            None => {
                let required = if config.append_number {
                    if config.min_entropy_millibits >= DIGIT_ENTROPY_MILLIBITS {
                        config.min_entropy_millibits - DIGIT_ENTROPY_MILLIBITS
                    } else {
                        0
                    }
                } else {
                    config.min_entropy_millibits
                };
                if entropy >= required {
                    done = true;
                }
            },
        }
    }
    proof {
        if config.words is None {
            if count > 1 {
                assert(count - 1 <= (count - 1) * bits_per_word_millibits) by (nonlinear_arith)
                    requires
                        count >= 1,
                        bits_per_word_millibits >= 1,
                ;
            }
            assert(count * bits_per_word_millibits == (count - 1) * bits_per_word_millibits
                + bits_per_word_millibits) by (nonlinear_arith);
        }
    }
    if config.append_number {
        let ghost words_only = tokens@;
        let d = rng::random_below(10);
        let digit = digit_token(d);
        proof {
            assert(is_digit_token(digit@));
        }
        let pos = rng::random_below(count + 1);
        proof {
            words_only.insert_ensures(pos as int, digit);
        }
        tokens.insert(pos, digit);
        entropy = entropy + DIGIT_ENTROPY_MILLIBITS;
        proof {
            assert(tokens@[pos as int]@ == digit@);
            assert forall|j: int| 0 <= j < tokens@.len() && j != pos as int implies is_word_token(
                #[trigger] tokens@[j]@,
                wl,
                config.capitalize,
            ) by {
                if j < pos as int {
                    assert(tokens@[j] == words_only[j]);
                } else {
                    assert(tokens@[j] == words_only[j - 1]);
                }
            }
        }
    }
    Passphrase { tokens, entropy_millibits: entropy }
}

} // verus!
