use fuzzy_logic::filters::bayesian;

// Class labels for a two-class problem, as the tests use them.
const FALSE_CLASS: u64 = 0;
const TRUE_CLASS: u64 = 1;

fn prob(v: f64) -> u64 {
    (v * 1_000_000.0).round() as u64
}

fn to_f64(v: u64) -> f64 {
    v as f64 / 1_000_000.0
}

#[test]
fn bayes_filter_result_is_a_probability_distribution() {
    let o = vec![(TRUE_CLASS, prob(0.40)), (FALSE_CLASS, prob(0.60))];
    let observations = vec![o.clone(), o.clone(), o.clone()];

    let result = bayesian(&observations).unwrap();
    let sum = result.iter().fold(0.0, |acc, n| acc + to_f64(n.1));
    assert!((1.0 - sum).abs() < 0.00001);
}

#[test]
fn bayes_filter_identifies_correct_class() {
    let o = vec![(TRUE_CLASS, prob(0.40)), (FALSE_CLASS, prob(0.60))];
    let observations = vec![o.clone(), o.clone(), o.clone()];

    let result = bayesian(&observations).unwrap();
    let (class, _) = result.iter().max_by_key(|&(_, v)| v).unwrap();
    assert_eq!(class, &FALSE_CLASS);
}

#[test]
fn bayes_filter_calculates_correct_probability() {
    let o = vec![(TRUE_CLASS, prob(0.40)), (FALSE_CLASS, prob(0.60))];
    let observations = vec![o.clone(), o.clone(), o.clone()];

    let result = bayesian(&observations).unwrap();
    let (_, p) = result.iter().max_by_key(|&(_, v)| v).unwrap();
    assert!((0.7714 - to_f64(*p)).abs() < 0.001);
}

#[test]
fn single_observation_is_returned_unchanged() {
    let o = vec![(TRUE_CLASS, prob(0.25)), (FALSE_CLASS, prob(0.75))];
    let observations = vec![o.clone()];

    let result = bayesian(&observations).unwrap();
    assert_eq!(result, o);
}

#[test]
fn two_observations_follow_bayes_rule() {
    let observations = vec![
        vec![(TRUE_CLASS, prob(0.40)), (FALSE_CLASS, prob(0.60))],
        vec![(TRUE_CLASS, prob(0.40)), (FALSE_CLASS, prob(0.60))],
    ];

    // 0.4*0.4 / (0.4*0.4 + 0.6*0.6) and 0.6*0.6 / (0.4*0.4 + 0.6*0.6),
    // rounded down to the fixed-point grid.
    let result = bayesian(&observations).unwrap();
    assert_eq!(result, vec![(TRUE_CLASS, 307_692), (FALSE_CLASS, 692_307)]);
}

#[test]
fn missing_class_key_is_reported() {
    let observations = vec![
        vec![(TRUE_CLASS, prob(0.40)), (FALSE_CLASS, prob(0.60))],
        vec![(2, prob(1.0))],
    ];

    assert!(bayesian(&observations).is_none());
}

#[test]
fn vanishing_normalizing_constant_is_reported() {
    let observations = vec![
        vec![(TRUE_CLASS, prob(0.0)), (FALSE_CLASS, prob(1.0))],
        vec![(TRUE_CLASS, prob(1.0))],
    ];

    assert!(bayesian(&observations).is_none());
}

#[test]
fn observations_are_not_mutated() {
    let o = vec![(TRUE_CLASS, prob(0.40)), (FALSE_CLASS, prob(0.60))];
    let observations = vec![o.clone(), o.clone()];

    let _ = bayesian(&observations).unwrap();
    assert_eq!(observations[0], o);
    assert_eq!(observations[1], o);
}
