//! The wordlist source: filtering of candidate lines, and the validated
//! word pool that passphrase assembly draws from.

use vstd::prelude::*;

verus! {

/// A comment line: one whose first character is `#`.
pub open spec fn is_comment(line: Seq<char>) -> bool {
    line.len() > 0 && line[0] == '#'
}

/// A line survives filtering when it is not a comment and is no longer
/// than `max_word_length` characters.
pub open spec fn line_kept(line: Seq<char>, max_word_length: int) -> bool {
    !is_comment(line) && line.len() <= max_word_length
}

/// The lines of `lines` that survive filtering, in their original order.
pub open spec fn kept_lines(lines: Seq<String>, max_word_length: int) -> Seq<String> {
    lines.filter(|l: String| line_kept(l@, max_word_length))
}

/// The character sequences of a sequence of strings.
pub open spec fn views_of(words: Seq<String>) -> Seq<Seq<char>> {
    words.map_values(|w: String| w@)
}

/// Keep exactly the lines that are not comments and not longer than
/// `max_word_length` characters, in their original order.
pub fn filter_wordlist(lines: &Vec<String>, max_word_length: usize) -> (kept: Vec<String>)
    ensures
        kept@ == kept_lines(lines@, max_word_length as int),
{
    let mut kept: Vec<String> = Vec::new();
    let n = lines.len();
    let mut i: usize = 0;
    while i < n
        invariant
            i <= n == lines@.len(),
            kept@ == kept_lines(lines@.take(i as int), max_word_length as int),
        decreases n - i,
    {
        let line = &lines[i];
        let char_count = line.as_str().unicode_len();
        let comment = char_count > 0 && line.as_str().get_char(0) == '#';
        let keep = !comment && char_count <= max_word_length;
        if keep {
            kept.push(line.clone());
        }
        proof {
            let pred = |l: String| line_kept(l@, max_word_length as int);
            let upto = lines@.take(i + 1);
            assert(upto.drop_last() =~= lines@.take(i as int));
            assert(upto.last() == lines@[i as int]);
            assert(keep == pred(lines@[i as int]));
            reveal(Seq::filter);
        }
        i = i + 1;
    }
    proof {
        assert(lines@.take(n as int) =~= lines@);
    }
    kept
}

/// Law: every line that survives filtering is neither a comment nor longer
/// than the limit, so no excluded line can ever reach the word pool or a
/// passphrase drawn from it.
pub proof fn lemma_kept_lines_kept(lines: Seq<String>, max_word_length: int, i: int)
    requires
        0 <= i < kept_lines(lines, max_word_length).len(),
    ensures
        line_kept(kept_lines(lines, max_word_length)[i]@, max_word_length),
{
    lines.lemma_filter_pred(|l: String| line_kept(l@, max_word_length), i);
}

/// The error raised when configuration validation finds no usable word.
#[derive(Clone, Copy, Debug, PartialEq, Eq, Structural)]
pub enum PassphraseError {
    /// The wordlist held no word at all once filtering was done, so a
    /// random draw could never succeed.
    EmptyWordlist,
}

/// A validated, non-empty pool of candidate words.  Immutable once built;
/// passphrase assembly draws from it uniformly at random.
#[derive(Debug)]
pub struct Wordlist {
    words: Vec<String>,
}

impl View for Wordlist {
    type V = Seq<Seq<char>>;

    closed spec fn view(&self) -> Seq<Seq<char>> {
        self.words.deep_view()
    }
}

impl Wordlist {
    #[verifier::type_invariant]
    spec fn non_empty(self) -> bool {
        self.words@.len() > 0
    }

    /// Validate a pool of words.  Succeeds exactly when at least one word
    /// is present; an empty pool is the degenerate case that would make
    /// random draws spin forever, and is rejected here, at validation time.
    pub fn new(words: Vec<String>) -> (r: Result<Wordlist, PassphraseError>)
        ensures
            r is Ok <==> words@.len() > 0,
            r is Ok ==> r->Ok_0@ == views_of(words@),
            r is Err ==> r->Err_0 == PassphraseError::EmptyWordlist,
    {
        if words.len() == 0 {
            Err(PassphraseError::EmptyWordlist)
        } else {
            let wl = Wordlist { words };
            proof {
                assert(wl@ =~= views_of(wl.words@));
            }
            Ok(wl)
        }
    }

    /// Build the pool from raw wordlist lines: filter out comments and
    /// over-length lines, then validate that something is left.
    pub fn from_lines(lines: &Vec<String>, max_word_length: usize) -> (r: Result<
        Wordlist,
        PassphraseError,
    >)
        ensures
            r is Ok <==> kept_lines(lines@, max_word_length as int).len() > 0,
            r is Ok ==> r->Ok_0@ == views_of(kept_lines(lines@, max_word_length as int)),
            r is Err ==> r->Err_0 == PassphraseError::EmptyWordlist,
    {
        let kept = filter_wordlist(lines, max_word_length);
        Wordlist::new(kept)
    }

    /// How many words the pool holds; always at least one.
    pub fn len(&self) -> (n: usize)
        ensures
            n == self@.len(),
            n > 0,
    {
        proof {
            use_type_invariant(self);
            assert(self.words@.len() == self@.len());
        }
        self.words.len()
    }

    /// The word at position `i`.
    pub fn word_at(&self, i: usize) -> (w: &String)
        requires
            i < self@.len(),
        ensures
            w@ == self@[i as int],
    {
        proof {
            assert(self.words@[i as int]@ == self@[i as int]);
        }
        &self.words[i]
    }
}

} // verus!
