use fuzzy_logic::degree::{Degree, SCALE};

fn deg(v: f64) -> Degree {
    Degree::new((v * SCALE as f64).round() as u64).unwrap()
}

#[test]
fn new_accepts_unit_interval() {
    assert!(Degree::new(0).is_some());
    assert!(Degree::new(SCALE).is_some());
    assert!(Degree::new(SCALE / 2).is_some());
}

#[test]
fn new_rejects_out_of_range() {
    assert!(Degree::new(SCALE + 1).is_none());
    assert!(Degree::new(u64::MAX).is_none());
}

#[test]
fn constants_are_the_boundaries() {
    assert_eq!(Degree::zero().value(), 0);
    assert_eq!(Degree::one().value(), SCALE);
}

#[test]
fn constructed_degree_is_between_zero_and_one() {
    for v in [0.0, 0.25, 0.5, 0.75, 1.0] {
        let d = deg(v);
        assert!(Degree::zero() <= d && d <= Degree::one());
    }
}

#[test]
fn ordering_follows_the_scalar() {
    assert!(deg(0.3) < deg(0.6));
    assert!(deg(0.6) > deg(0.3));
    assert!(deg(0.3) <= deg(0.3));
}

#[test]
fn and_is_minimum() {
    assert_eq!(deg(0.3).and(deg(0.6)), deg(0.3));
    assert_eq!(deg(0.6).and(deg(0.3)), deg(0.3));
}

#[test]
fn or_is_maximum() {
    assert_eq!(deg(0.3).or(deg(0.6)), deg(0.6));
    assert_eq!(deg(0.6).or(deg(0.3)), deg(0.6));
}

#[test]
fn and_or_bounded_by_operands() {
    for (a, b) in [(0.0, 1.0), (0.2, 0.9), (0.5, 0.5), (0.7, 0.1)] {
        let (x, y) = (deg(a), deg(b));
        assert!(x.and(y) <= x && x.and(y) <= y);
        assert!(x.or(y) >= x && x.or(y) >= y);
    }
}

#[test]
fn p_and_is_product() {
    assert_eq!(deg(0.3).p_and(deg(0.6)).value(), 180_000);
    assert_eq!(deg(1.0).p_and(deg(0.4)), deg(0.4));
    assert_eq!(deg(0.0).p_and(deg(0.4)), deg(0.0));
}

#[test]
fn p_or_is_probabilistic_sum() {
    assert_eq!(deg(0.3).p_or(deg(0.6)).value(), 720_000);
    assert_eq!(deg(1.0).p_or(deg(0.4)), deg(1.0));
    assert_eq!(deg(0.0).p_or(deg(0.4)), deg(0.4));
}

#[test]
fn probabilistic_bounded_by_lattice() {
    for (a, b) in [(0.0, 1.0), (0.2, 0.9), (0.5, 0.5), (0.7, 0.1)] {
        let (x, y) = (deg(a), deg(b));
        assert!(x.p_and(y) <= x.and(y));
        assert!(x.p_or(y) >= x.or(y));
    }
}

#[test]
fn not_is_involution() {
    for v in [0.0, 0.25, 0.37, 1.0] {
        let x = deg(v);
        assert_eq!(x.not().not(), x);
    }
    assert_eq!(deg(0.3).not().value(), 700_000);
}

#[test]
fn and_or_idempotent() {
    for v in [0.0, 0.25, 0.37, 1.0] {
        let x = deg(v);
        assert_eq!(x.and(x), x);
        assert_eq!(x.or(x), x);
    }
}

#[test]
fn add_within_range() {
    assert_eq!(deg(0.3).add(deg(0.6)).unwrap(), deg(0.9));
    assert_eq!(deg(0.5).add(deg(0.5)).unwrap(), deg(1.0));
}

#[test]
fn add_fails_past_one() {
    assert!(deg(0.6).add(deg(0.6)).is_none());
    assert!(deg(1.0).add(deg(0.1)).is_none());
}

#[test]
fn sub_within_range() {
    assert_eq!(deg(0.6).sub(deg(0.3)).unwrap(), deg(0.3));
    assert_eq!(deg(0.6).sub(deg(0.6)).unwrap(), deg(0.0));
}

#[test]
fn sub_fails_below_zero() {
    assert!(deg(0.3).sub(deg(0.6)).is_none());
}

#[test]
fn mul_is_rescaled_product() {
    assert_eq!(deg(0.3).mul(deg(0.6)).value(), 180_000);
    assert_eq!(deg(1.0).mul(deg(0.7)), deg(0.7));
}

#[test]
fn div_within_range() {
    assert_eq!(deg(0.3).div(deg(0.6)).unwrap(), deg(0.5));
    assert_eq!(deg(0.6).div(deg(0.6)).unwrap(), deg(1.0));
    assert_eq!(deg(0.0).div(deg(0.6)).unwrap(), deg(0.0));
}

#[test]
fn div_fails_outside_range() {
    assert!(deg(0.6).div(deg(0.3)).is_none());
    assert!(deg(0.6).div(deg(0.0)).is_none());
}
