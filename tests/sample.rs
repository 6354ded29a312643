use finlib_ta::{is_greater, is_less, Direction, WindowExtremum, INFINITY, NEG_INFINITY};

fn gt(a: f64, b: f64) -> bool {
    is_greater(a.to_bits(), b.to_bits())
}

fn lt(a: f64, b: f64) -> bool {
    is_less(a.to_bits(), b.to_bits())
}

#[test]
fn infinity_constants_match_binary64() {
    assert_eq!(INFINITY, f64::INFINITY.to_bits());
    assert_eq!(NEG_INFINITY, f64::NEG_INFINITY.to_bits());
}

#[test]
fn comparison_agrees_with_floats() {
    let values = [
        f64::NEG_INFINITY, -1e300, -2.5, -1.0, -f64::MIN_POSITIVE, -5e-324, -0.0, 0.0, 5e-324,
        f64::MIN_POSITIVE, 0.1, 1.0, 1.5, 2.0, 1e300, f64::MAX, f64::INFINITY, f64::NAN, -f64::NAN,
    ];
    for &a in values.iter() {
        for &b in values.iter() {
            assert_eq!(gt(a, b), a > b, "{} > {}", a, b);
            assert_eq!(lt(a, b), a < b, "{} < {}", a, b);
        }
    }
}

#[test]
fn zeros_compare_equal() {
    assert!(!gt(0.0, -0.0));
    assert!(!lt(-0.0, 0.0));
    assert!(gt(5e-324, -0.0));
}

#[test]
fn tracker_of_either_direction() {
    let mut hi = WindowExtremum::new(Direction::Highest, 2).unwrap();
    let mut lo = WindowExtremum::new(Direction::Lowest, 2).unwrap();
    let mut outs = Vec::new();
    for x in [3.0f64, 1.0, 2.0, 0.5] {
        let h = f64::from_bits(hi.next(x.to_bits()));
        let l = f64::from_bits(lo.next(x.to_bits()));
        outs.push((h, l));
    }
    assert_eq!(outs, vec![(3.0, 3.0), (3.0, 1.0), (2.0, 1.0), (2.0, 0.5)]);
    assert!(WindowExtremum::new(Direction::Lowest, 0).is_err());
    assert_eq!(WindowExtremum::with_period(Direction::Highest, 5).period(), 5);
}
