use chbs::PassphraseError;
use chbs::Wordlist;
use chbs::wordlist::filter_wordlist;

fn strings(words: &[&str]) -> Vec<String> {
    words.iter().map(|w| w.to_string()).collect()
}

#[test]
fn filter_drops_comments_and_long_lines() {
    let lines = strings(&["# a comment", "abc", "toolongword", "def", "#", "sixsix"]);
    let kept = filter_wordlist(&lines, 6);
    assert_eq!(kept, strings(&["abc", "def", "sixsix"]));
}

#[test]
fn filter_keeps_order_and_duplicates() {
    let lines = strings(&["b", "a", "b"]);
    let kept = filter_wordlist(&lines, 10);
    assert_eq!(kept, strings(&["b", "a", "b"]));
}

#[test]
fn filter_keeps_blank_lines_under_length_limit() {
    // A blank line is a zero-length word: the length check alone filters it.
    let lines = strings(&["", "word"]);
    assert_eq!(filter_wordlist(&lines, 4), strings(&["", "word"]));
}

#[test]
fn filter_length_is_in_characters() {
    // Four characters, more than four bytes.
    let lines = strings(&["côté"]);
    assert_eq!(filter_wordlist(&lines, 4), strings(&["côté"]));
    assert_eq!(filter_wordlist(&lines, 3), strings(&[]));
}

#[test]
fn empty_wordlist_is_rejected() {
    let err = Wordlist::new(vec![]).unwrap_err();
    assert_eq!(err, PassphraseError::EmptyWordlist);
}

#[test]
fn fully_filtered_wordlist_is_rejected() {
    let lines = strings(&["# only", "# comments", "farfartoolong"]);
    let err = Wordlist::from_lines(&lines, 6).unwrap_err();
    assert_eq!(err, PassphraseError::EmptyWordlist);
}

#[test]
fn from_lines_builds_the_filtered_pool() {
    let lines = strings(&["# header", "apple", "banana", "watermelons"]);
    let wl = Wordlist::from_lines(&lines, 6).unwrap();
    assert_eq!(wl.len(), 2);
    assert_eq!(wl.word_at(0).as_str(), "apple");
    assert_eq!(wl.word_at(1).as_str(), "banana");
}
