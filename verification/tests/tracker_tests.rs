use scanner::scoring::{
    ConfigError, ScoringWeights, TopScoreTracker, WEIGHT_ONE, WEIGHT_TOLERANCE,
};

fn key(score: f64) -> u64 {
    score.to_bits()
}

fn held(tracker: &TopScoreTracker) -> Vec<(String, f64)> {
    tracker.top().iter().map(|(a, s)| (a.clone(), f64::from_bits(*s))).collect()
}

fn named(entries: &[(&str, f64)]) -> Vec<(String, f64)> {
    entries.iter().map(|(a, s)| (a.to_string(), *s)).collect()
}

#[test]
fn test_default_weights_sum_to_one() {
    let w = ScoringWeights::default();
    let unit = WEIGHT_ONE as f64;
    let sum = w.numerology_weight as f64 / unit
        + w.fc60_weight as f64 / unit
        + w.math_weight as f64 / unit
        + w.pattern_weight as f64 / unit;
    assert!((sum - 1.0).abs() < 1e-10);
}

#[test]
fn default_weights_are_the_standard_shares() {
    let w = ScoringWeights::default();
    let unit = WEIGHT_ONE as f64;
    assert_eq!(w.numerology_weight as f64 / unit, 0.3);
    assert_eq!(w.fc60_weight as f64 / unit, 0.25);
    assert_eq!(w.math_weight as f64 / unit, 0.25);
    assert_eq!(w.pattern_weight as f64 / unit, 0.2);
    assert_eq!(w.validate(), Ok(()));
}

#[test]
fn weights_within_tolerance_are_accepted() {
    let mut w = ScoringWeights::default();
    w.pattern_weight += WEIGHT_TOLERANCE - 1;
    assert_eq!(w.validate(), Ok(()));
    let mut w = ScoringWeights::default();
    w.pattern_weight -= WEIGHT_TOLERANCE - 1;
    assert_eq!(w.validate(), Ok(()));
}

#[test]
fn weights_off_by_the_tolerance_are_rejected() {
    let mut w = ScoringWeights::default();
    w.pattern_weight += WEIGHT_TOLERANCE;
    assert_eq!(w.validate(), Err(ConfigError::WeightsDoNotSumToOne));
    let mut w = ScoringWeights::default();
    w.pattern_weight -= WEIGHT_TOLERANCE;
    assert_eq!(w.validate(), Err(ConfigError::WeightsDoNotSumToOne));
}

#[test]
fn weight_above_one_is_rejected() {
    let w = ScoringWeights {
        numerology_weight: WEIGHT_ONE + 1,
        fc60_weight: 0,
        math_weight: 0,
        pattern_weight: 0,
    };
    assert_eq!(w.validate(), Err(ConfigError::WeightOutOfRange));
    let w = ScoringWeights {
        numerology_weight: u64::MAX,
        fc60_weight: u64::MAX,
        math_weight: u64::MAX,
        pattern_weight: u64::MAX,
    };
    assert_eq!(w.validate(), Err(ConfigError::WeightOutOfRange));
}

#[test]
fn single_full_weight_is_valid() {
    let w = ScoringWeights {
        numerology_weight: WEIGHT_ONE,
        fc60_weight: 0,
        math_weight: 0,
        pattern_weight: 0,
    };
    assert_eq!(w.validate(), Ok(()));
}

#[test]
fn top_three_scenario() {
    let mut t = TopScoreTracker::new(3);
    assert!(t.submit("A".to_string(), key(0.9)));
    assert!(t.submit("B".to_string(), key(0.5)));
    assert!(t.submit("C".to_string(), key(0.7)));
    assert!(t.submit("D".to_string(), key(0.6)));
    assert_eq!(held(&t), named(&[("A", 0.9), ("C", 0.7), ("D", 0.6)]));
    assert!(!t.submit("E".to_string(), key(0.6)));
    assert_eq!(held(&t), named(&[("A", 0.9), ("C", 0.7), ("D", 0.6)]));
}

#[test]
fn retains_lesser_of_offered_and_capacity() {
    for capacity in 0..6usize {
        for offered in 0..9usize {
            let mut t = TopScoreTracker::new(capacity);
            for i in 0..offered {
                let score = ((i * 7) % 11) as f64 / 16.0 + 0.0625;
                t.submit(format!("addr{i}"), key(score));
            }
            assert_eq!(t.top().len(), offered.min(capacity));
            for pair in t.top().windows(2) {
                assert!(f64::from_bits(pair[0].1) >= f64::from_bits(pair[1].1));
            }
        }
    }
}

#[test]
fn keeps_the_best_of_distinct_scores() {
    let mut t = TopScoreTracker::new(2);
    assert!(t.submit("low".to_string(), key(0.1)));
    assert!(t.submit("mid".to_string(), key(0.4)));
    assert!(t.submit("high".to_string(), key(0.8)));
    assert!(!t.submit("least".to_string(), key(0.05)));
    assert_eq!(held(&t), named(&[("high", 0.8), ("mid", 0.4)]));
}

#[test]
fn ties_keep_first_seen_order_while_there_is_room() {
    let mut t = TopScoreTracker::new(4);
    assert!(t.submit("first".to_string(), key(0.5)));
    assert!(t.submit("second".to_string(), key(0.5)));
    assert!(t.submit("top".to_string(), key(0.75)));
    assert!(t.submit("third".to_string(), key(0.5)));
    assert_eq!(
        held(&t),
        named(&[("top", 0.75), ("first", 0.5), ("second", 0.5), ("third", 0.5)])
    );
}

#[test]
fn min_score_is_zero_until_full() {
    let mut t = TopScoreTracker::new(2);
    assert_eq!(t.min_score(), 0);
    t.submit("a".to_string(), key(0.9));
    assert_eq!(t.min_score(), 0);
    t.submit("b".to_string(), key(0.3));
    assert_eq!(f64::from_bits(t.min_score()), 0.3);
    t.submit("c".to_string(), key(0.6));
    assert_eq!(f64::from_bits(t.min_score()), 0.6);
}

#[test]
fn zero_capacity_holds_nothing() {
    let mut t = TopScoreTracker::new(0);
    assert!(!t.submit("zero".to_string(), key(0.0)));
    assert!(!t.submit("some".to_string(), key(0.5)));
    assert!(!t.submit("best".to_string(), key(1.0)));
    assert!(t.top().is_empty());
    assert_eq!(t.min_score(), 0);
}

#[test]
fn new_tracker_is_empty() {
    let t = TopScoreTracker::new(7);
    assert_eq!(t.capacity, 7);
    assert!(t.top().is_empty());
}

#[test]
fn every_order_of_distinct_scores_keeps_the_same_best() {
    let scores = [0.15, 0.85, 0.45, 0.65, 0.25];
    let orders: [[usize; 5]; 4] =
        [[0, 1, 2, 3, 4], [4, 3, 2, 1, 0], [2, 0, 4, 1, 3], [1, 3, 0, 4, 2]];
    for order in orders {
        let mut t = TopScoreTracker::new(3);
        for i in order {
            t.submit(format!("a{i}"), key(scores[i]));
            assert!(t.top().len() <= 3);
        }
        assert_eq!(held(&t), named(&[("a1", 0.85), ("a3", 0.65), ("a2", 0.45)]));
    }
}
