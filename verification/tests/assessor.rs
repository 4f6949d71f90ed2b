use oxalslien::claim::{Claim, MAX_LEVEL, MIN_LEVEL};
use oxalslien::finality::{classify, Finality, HIGHLY_LIKELY_ABOVE, LIKELY_ABOVE};
use oxalslien::fixed::ONE;

fn from_float(probability: f64) -> u64 {
    (probability * ONE as f64).round() as u64
}

#[test]
fn boundaries_belong_to_the_lower_status() {
    assert_eq!(from_float(0.99), HIGHLY_LIKELY_ABOVE);
    assert_eq!(from_float(0.7), LIKELY_ABOVE);
    assert_eq!(classify(from_float(0.99)), Finality::Likely);
    assert_eq!(classify(700_000_001_000_000_000), Finality::Likely);
    assert_eq!(classify(from_float(0.7)), Finality::Low);
    assert_eq!(classify(HIGHLY_LIKELY_ABOVE + 1), Finality::HighlyLikely);
    assert_eq!(classify(LIKELY_ABOVE + 1), Finality::Likely);
    assert_eq!(classify(0), Finality::Low);
    assert_eq!(classify(ONE), Finality::HighlyLikely);
    assert_eq!(classify(u64::MAX), Finality::HighlyLikely);
}

#[test]
fn labels_are_the_three_statuses() {
    assert_eq!(Finality::HighlyLikely.label(), "Highly likely to finalize");
    assert_eq!(Finality::Likely.label(), "Likely to finalize");
    assert_eq!(Finality::Low.label(), "Low probability of finalization");
}

#[test]
fn reference_scenario_is_highly_likely() {
    let claim = Claim::new(String::from("it settles"), 3, 1, from_float(0.95)).unwrap();
    let status = classify(claim.acceptance_probability(5));
    assert_eq!(status, Finality::HighlyLikely);
    assert_eq!(status.label(), "Highly likely to finalize");
    // without a round the claim is only likely
    assert_eq!(classify(claim.acceptance_probability(0)), Finality::Likely);
}

#[test]
fn levels_are_drawn_evenly_from_one_to_five() {
    assert_eq!((MIN_LEVEL, MAX_LEVEL), (1, 5));
    let claim = Claim::new(String::new(), 3, 1, from_float(0.95)).unwrap();
    let mut seen = [0u32; 6];
    for _ in 0..10_000 {
        let level = claim.provability_level();
        assert!((1..=5).contains(&level));
        seen[level as usize] += 1;
    }
    assert_eq!(seen[0], 0);
    for level in 1..=5 {
        // a fifth of the draws each, within five percent of them all
        assert!(seen[level] > 1_500 && seen[level] < 2_500);
    }
}

#[test]
fn level_does_not_depend_on_the_claim() {
    let sure = Claim::new(String::from("sure"), 9, 9, ONE).unwrap();
    let hopeless = Claim::new(String::from("hopeless"), 0, 0, 0).unwrap();
    let mut seen_sure = [false; 6];
    let mut seen_hopeless = [false; 6];
    for _ in 0..2_000 {
        seen_sure[sure.provability_level() as usize] = true;
        seen_hopeless[hopeless.provability_level() as usize] = true;
    }
    assert_eq!(seen_sure, [false, true, true, true, true, true]);
    assert_eq!(seen_hopeless, seen_sure);
}
