use open_parallel::report::count_distinct;
use open_parallel::{DivergenceBand, RuntimePhase};

#[test]
fn from_divergence_follows_the_bands() {
    assert_eq!(RuntimePhase::from_divergence(DivergenceBand::Settled, true), RuntimePhase::Nominal);
    assert_eq!(RuntimePhase::from_divergence(DivergenceBand::Settled, false), RuntimePhase::Recovered);
    assert_eq!(RuntimePhase::from_divergence(DivergenceBand::Steady, false), RuntimePhase::Nominal);
    assert_eq!(RuntimePhase::from_divergence(DivergenceBand::Shifting, true), RuntimePhase::PreTransition);
    assert_eq!(RuntimePhase::from_divergence(DivergenceBand::Diverged, true), RuntimePhase::Transitioning);
}

#[test]
fn phase_descriptions_match_each_phase() {
    assert!(RuntimePhase::PreTransition.description().starts_with("Pre-transition:"));
    assert!(RuntimePhase::Transitioning.description().starts_with("Transitioning:"));
    assert!(RuntimePhase::Recovered.description().contains("Returning to normal"));
}

#[test]
fn count_distinct_counts_each_text_once() {
    let names: Vec<String> = ["hog", "db", "hog", "cache", "db"].iter().map(|s| s.to_string()).collect();
    assert_eq!(count_distinct(&names), 3);
    assert_eq!(count_distinct(&Vec::new()), 0);
    assert_eq!(count_distinct(&vec!["x".to_string()]), 1);
}
