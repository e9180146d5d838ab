use chbs::Config;
use chbs::Wordlist;
use chbs::generate;

fn pool(words: &[&str]) -> Wordlist {
    Wordlist::new(words.iter().map(|w| w.to_string()).collect()).unwrap()
}

fn config(words: Option<usize>, min_entropy_millibits: u64, append_number: bool) -> Config {
    Config {
        words,
        min_entropy_millibits,
        max_word_length: 10,
        capitalize: false,
        append_number,
        delimiter: "-".to_string(),
        quiet: false,
    }
}

fn is_digit_token(t: &str) -> bool {
    t.len() == 1 && t.chars().next().unwrap().is_ascii_digit()
}

#[test]
fn fixed_word_count_without_digit() {
    let wl = pool(&["alpha", "bravo", "charlie"]);
    for w in 1..=8 {
        let p = generate(&wl, &config(Some(w), 0, false), 1585);
        assert_eq!(p.tokens.len(), w);
        assert_eq!(p.entropy_millibits, 1585 * w as u64);
    }
}

#[test]
fn fixed_word_count_with_digit_has_one_extra_token() {
    let wl = pool(&["alpha", "bravo", "charlie"]);
    for w in 1..=8 {
        let p = generate(&wl, &config(Some(w), 0, true), 1585);
        assert_eq!(p.tokens.len(), w + 1);
        assert_eq!(p.entropy_millibits, 1585 * w as u64 + 3322);
        assert_eq!(p.tokens.iter().filter(|t| is_digit_token(t)).count(), 1);
    }
}

#[test]
fn single_word_with_digit_inserts_at_either_boundary() {
    // With one word the digit lands at position 0 or 1; over many runs both
    // must occur, and the result always holds the word and one digit.
    let wl = pool(&["word"]);
    let cfg = config(Some(1), 0, true);
    let mut seen_front = false;
    let mut seen_back = false;
    for _ in 0..200 {
        let p = generate(&wl, &cfg, 0);
        assert_eq!(p.tokens.len(), 2);
        if is_digit_token(&p.tokens[0]) {
            assert_eq!(p.tokens[1], "word");
            seen_front = true;
        } else {
            assert_eq!(p.tokens[0], "word");
            assert!(is_digit_token(&p.tokens[1]));
            seen_back = true;
        }
    }
    assert!(seen_front && seen_back);
}

#[test]
fn min_entropy_mode_reaches_the_threshold() {
    // Four words: 2000 millibits each; 10 bits requires exactly five words.
    let wl = pool(&["one", "two", "three", "four"]);
    let p = generate(&wl, &config(None, 10000, false), 2000);
    assert_eq!(p.tokens.len(), 5);
    assert_eq!(p.entropy_millibits, 10000);
    assert!(p.entropy_millibits >= 10000);
}

#[test]
fn min_entropy_mode_deducts_the_digit_contribution_up_front() {
    // Effective threshold 10000 - 3322 = 6678: four words of 2000 suffice
    // (three fall short), and the digit brings the total to 11322.
    let wl = pool(&["one", "two", "three", "four"]);
    let p = generate(&wl, &config(None, 10000, true), 2000);
    assert_eq!(p.tokens.len(), 5);
    assert_eq!(p.entropy_millibits, 4 * 2000 + 3322);
    assert!(p.entropy_millibits >= 10000);
}

#[test]
fn min_entropy_below_the_digit_contribution_saturates() {
    // A 2-bit target is below the digit's own 3.322 bits: the effective
    // threshold saturates at zero and a single word suffices.
    let wl = pool(&["one", "two", "three", "four"]);
    let p = generate(&wl, &config(None, 2000, true), 2000);
    assert_eq!(p.tokens.len(), 2);
    assert_eq!(p.entropy_millibits, 2000 + 3322);
}

#[test]
fn zero_word_target_still_draws_one_word() {
    let wl = pool(&["alpha"]);
    let p = generate(&wl, &config(Some(0), 0, false), 0);
    assert_eq!(p.tokens.len(), 1);
    assert_eq!(p.tokens[0], "alpha");
}

#[test]
fn digit_insertion_adds_exactly_its_constant() {
    // Same configuration with and without the digit: the totals differ by
    // exactly the digit's millibit constant.
    let wl = pool(&["one", "two", "three", "four"]);
    let with = generate(&wl, &config(Some(6), 0, true), 2000);
    let without = generate(&wl, &config(Some(6), 0, false), 2000);
    assert_eq!(with.entropy_millibits - without.entropy_millibits, 3322);
}

#[test]
fn capitalization_applies_to_every_word() {
    let wl = pool(&["apple", "banana"]);
    let mut cfg = config(Some(6), 0, false);
    cfg.capitalize = true;
    let p = generate(&wl, &cfg, 1000);
    for t in &p.tokens {
        assert!(t == "Apple" || t == "Banana");
    }
}

#[test]
fn render_round_trips_through_the_delimiter() {
    let wl = pool(&["apple", "banana", "cherry"]);
    for append in [false, true] {
        let cfg = config(Some(5), 0, append);
        let p = generate(&wl, &cfg, 1585);
        let rendered = p.render("-");
        let segments: Vec<&str> = rendered.split('-').collect();
        assert_eq!(segments.len(), p.tokens.len());
        for (seg, tok) in segments.iter().zip(p.tokens.iter()) {
            assert_eq!(seg, tok);
            assert!(!seg.is_empty());
        }
    }
}

#[test]
fn render_with_longer_delimiter() {
    let wl = pool(&["apple"]);
    let p = generate(&wl, &config(Some(3), 0, false), 0);
    let rendered = p.render(", ");
    assert_eq!(rendered, "apple, apple, apple");
}

#[test]
fn filtered_lines_never_appear_in_a_passphrase() {
    // Comments and over-length lines never come out of the generator,
    // across repeated trials.
    let lines: Vec<String> =
        ["# secret", "apple", "banana", "extraordinarily", "#tag", "plum"]
            .iter()
            .map(|w| w.to_string())
            .collect();
    let wl = Wordlist::from_lines(&lines, 6).unwrap();
    assert_eq!(wl.len(), 3);
    let cfg = config(Some(4), 0, true);
    for _ in 0..100 {
        let p = generate(&wl, &cfg, 1585);
        for t in &p.tokens {
            assert!(
                t == "apple" || t == "banana" || t == "plum" || is_digit_token(t),
                "unexpected token {t}"
            );
        }
    }
}
