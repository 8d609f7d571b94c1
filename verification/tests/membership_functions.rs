use fuzzy_logic::degree::Degree;
use fuzzy_logic::membership_functions::{
    gaussian, Boolean, Fuzzy, Gradual, ReverseGradual, Trapezoid, Triangular,
};

fn fx(v: f64) -> i64 {
    (v * 1_000_000.0).round() as i64
}

#[test]
fn boolean_large_value() {
    let degree = Boolean::new(fx(0.5)).membership(fx(7.1));
    assert_eq!(degree, Degree::one());
}

#[test]
fn boolean_boundary() {
    let degree = Boolean::new(fx(0.75)).membership(fx(0.75));
    assert_eq!(degree, Degree::one());
}

#[test]
fn boolean_small_value() {
    let degree = Boolean::new(fx(0.5)).membership(fx(-3.0));
    assert_eq!(degree, Degree::zero());
}

#[test]
fn boolean_step_far_above() {
    let degree = Boolean::new(fx(0.5)).membership(fx(10.2));
    assert_eq!(degree, Degree::one());
}

#[test]
fn boolean_step_far_below() {
    let degree = Boolean::new(fx(0.5)).membership(fx(-7.2));
    assert_eq!(degree, Degree::zero());
}

#[test]
fn gradual_large_value() {
    let degree = Gradual::new(fx(0.1), fx(0.5)).membership(fx(0.9));
    assert_eq!(degree, Degree::one());
}

#[test]
fn gradual_boundary() {
    let degree = Gradual::new(fx(0.1), fx(0.5)).membership(fx(0.5));
    assert_eq!(degree, Degree::one());
}

#[test]
fn gradual_small_value() {
    let degree = Gradual::new(fx(0.1), fx(0.5)).membership(fx(0.05));
    assert_eq!(degree, Degree::zero());
}

#[test]
fn gradual_midpoint_is_half() {
    let degree = Gradual::new(fx(0.1), fx(0.5)).membership(fx(0.3));
    assert_eq!(degree.value(), 500_000);
}

#[test]
fn gradual_never_decreases_on_ramp() {
    let g = Gradual::new(fx(0.1), fx(0.5));
    let mut previous = g.membership(fx(0.1));
    for step in 0..=40 {
        let v = fx(0.1) + step * 10_000;
        let d = g.membership(v);
        assert!(previous.value() <= d.value());
        previous = d;
    }
    assert_eq!(g.membership(fx(0.1)), Degree::zero());
    assert_eq!(g.membership(fx(0.5)), Degree::one());
}

#[test]
fn reverse_gradual_complements_gradual() {
    let g = Gradual::new(fx(0.1), fx(0.5));
    let rg = ReverseGradual::new(fx(0.1), fx(0.5));
    for v in [fx(-1.0), fx(0.1), fx(0.2), fx(0.3), fx(0.45), fx(0.5), fx(2.0)] {
        assert_eq!(rg.membership(v), g.membership(v).not());
    }
}

#[test]
fn triangular_large_value() {
    let degree = Triangular::new(fx(0.1), fx(0.5), fx(0.9)).membership(fx(2.5));
    assert_eq!(degree, Degree::zero());
}

#[test]
fn triangular_boundary() {
    let degree = Triangular::new(fx(0.1), fx(0.5), fx(0.9)).membership(fx(0.5));
    assert_eq!(degree, Degree::one());
}

#[test]
fn triangular_small_value() {
    let degree = Triangular::new(fx(0.1), fx(0.5), fx(0.9)).membership(fx(0.05));
    assert_eq!(degree, Degree::zero());
}

#[test]
fn triangular_falls_after_peak() {
    let t = Triangular::new(fx(0.1), fx(0.5), fx(0.9));
    assert_eq!(t.membership(fx(0.7)).value(), 500_000);
    assert_eq!(t.membership(fx(0.9)), Degree::zero());
    assert_eq!(t.membership(fx(0.1)), Degree::zero());
}

#[test]
fn trapezoid_large_value() {
    let degree = Trapezoid::new(fx(0.1), fx(0.3), fx(0.6), fx(0.9)).membership(fx(2.5));
    assert_eq!(degree, Degree::zero());
}

#[test]
fn trapezoid_boundary() {
    let degree = Trapezoid::new(fx(0.1), fx(0.3), fx(0.6), fx(0.9)).membership(fx(0.6));
    assert_eq!(degree, Degree::one());
}

#[test]
fn trapezoid_small_value() {
    let degree = Trapezoid::new(fx(0.1), fx(0.3), fx(0.6), fx(0.9)).membership(fx(0.05));
    assert_eq!(degree, Degree::zero());
}

#[test]
fn trapezoid_plateau_is_one() {
    let t = Trapezoid::new(fx(0.1), fx(0.3), fx(0.6), fx(0.9));
    for v in [fx(0.3), fx(0.4), fx(0.45), fx(0.55), fx(0.6)] {
        assert_eq!(t.membership(v), Degree::one());
    }
    assert_eq!(t.membership(fx(0.2)).value(), 500_000);
    assert_eq!(t.membership(fx(0.75)).value(), 500_000);
}

#[test]
fn gaussian_signals_not_implemented() {
    assert!(gaussian(fx(0.5), fx(0.0), fx(1.0)).is_none());
}
