use chbs::Strength;
use chbs::calculate_entropy;
use chbs::classify;
use chbs::entropy::DIGIT_ENTROPY_MILLIBITS;

#[test]
fn entropy_formula_millibits() {
    // log2(7776) = 12.92481250360578 bits, i.e. 12925 millibits rounded;
    // six words of a 7776-word list carry 77.549 bits.
    assert_eq!(calculate_entropy(12925, 6), 77550);
    let exact = (7776f64).log2() * 6.0;
    assert!((exact - 77.54887502163469).abs() < 1e-9);
    assert!((calculate_entropy(12925, 6) as f64 / 1000.0 - exact).abs() < 0.01);
}

#[test]
fn entropy_formula_edge_values() {
    assert_eq!(calculate_entropy(0, 100), 0);
    assert_eq!(calculate_entropy(1000, 0), 0);
    assert_eq!(calculate_entropy(1000, 1), 1000);
}

#[test]
fn digit_entropy_constant_matches_log2_of_ten() {
    let exact = (10f64).log2() * 1000.0;
    assert!((DIGIT_ENTROPY_MILLIBITS as f64 - exact).abs() < 0.5);
    assert_eq!(DIGIT_ENTROPY_MILLIBITS, 3322);
}

#[test]
fn classification_boundaries() {
    assert_eq!(classify(69990), Strength::NotSecure);
    assert_eq!(classify(70000), Strength::Decent);
    assert_eq!(classify(94990), Strength::Decent);
    assert_eq!(classify(95000), Strength::Good);
    assert_eq!(classify(119990), Strength::Good);
    assert_eq!(classify(120000), Strength::Paranoid);
}

#[test]
fn classification_far_values() {
    assert_eq!(classify(0), Strength::NotSecure);
    assert_eq!(classify(u64::MAX), Strength::Paranoid);
}

#[test]
fn strength_labels() {
    assert_eq!(classify(69990).label(), "not secure");
    assert_eq!(classify(70000).label(), "decent");
    assert_eq!(classify(95000).label(), "good");
    assert_eq!(classify(120000).label(), "paranoid");
}
