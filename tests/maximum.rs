use finlib_ta::{High, Maximum, TaError};

fn feed(max: &mut Maximum, x: f64) -> f64 {
    f64::from_bits(max.next(x.to_bits()))
}

struct Bar {
    high: f64,
}

impl High for Bar {
    fn high_value(&self) -> u64 {
        self.high.to_bits()
    }

    fn high(&self) -> u64 {
        self.high.to_bits()
    }
}

fn bar(high: f64) -> Bar {
    Bar { high }
}

fn feed_bar(max: &mut Maximum, b: &Bar) -> f64 {
    f64::from_bits(max.next_bar(b))
}

#[test]
fn maximum_test_new() {
    assert!(Maximum::new(0).is_err());
    assert!(Maximum::new(1).is_ok());
}

#[test]
fn maximum_test_next() {
    let mut max = Maximum::new(3).unwrap();

    assert_eq!(feed(&mut max, 4.0), 4.0);
    assert_eq!(feed(&mut max, 1.2), 4.0);
    assert_eq!(feed(&mut max, 5.0), 5.0);
    assert_eq!(feed(&mut max, 3.0), 5.0);
    assert_eq!(feed(&mut max, 4.0), 5.0);
    assert_eq!(feed(&mut max, 0.0), 4.0);
    assert_eq!(feed(&mut max, -1.0), 4.0);
    assert_eq!(feed(&mut max, -2.0), 0.0);
    assert_eq!(feed(&mut max, -1.5), -1.0);
}

#[test]
fn maximum_test_next_with_bars() {
    let mut max = Maximum::new(2).unwrap();

    assert_eq!(feed_bar(&mut max, &bar(1.1)), 1.1);
    assert_eq!(feed_bar(&mut max, &bar(4.0)), 4.0);
    assert_eq!(feed_bar(&mut max, &bar(3.5)), 4.0);
    assert_eq!(feed_bar(&mut max, &bar(2.0)), 3.5);
}

#[test]
fn maximum_test_reset() {
    let mut max = Maximum::new(100).unwrap();
    assert_eq!(feed(&mut max, 4.0), 4.0);
    assert_eq!(feed(&mut max, 10.0), 10.0);
    assert_eq!(feed(&mut max, 4.0), 10.0);

    max.reset();
    assert_eq!(feed(&mut max, 4.0), 4.0);
}

#[test]
fn maximum_test_default() {
    let max = Maximum::default();
    assert_eq!(max.period(), 14);
}

#[test]
fn maximum_new_zero_is_invalid_parameter() {
    assert!(matches!(Maximum::new(0), Err(TaError::InvalidParameter)));
    for p in 1..20 {
        assert_eq!(Maximum::new(p).unwrap().period(), p);
    }
}

#[test]
fn maximum_worked_example() {
    let mut max = Maximum::new(3).unwrap();
    let outputs: Vec<f64> = [7.0, 5.0, 4.0, 4.0, 8.0].iter().map(|&x| feed(&mut max, x)).collect();
    assert_eq!(outputs, vec![7.0, 7.0, 7.0, 5.0, 8.0]);
}

#[test]
fn maximum_eviction_rescans_remaining() {
    let mut max = Maximum::new(3).unwrap();
    assert_eq!(feed(&mut max, 9.0), 9.0);
    assert_eq!(feed(&mut max, 2.0), 9.0);
    assert_eq!(feed(&mut max, 6.0), 9.0);
    // 9.0 leaves: the rest is 2.0, 6.0 and the new 1.0
    assert_eq!(feed(&mut max, 1.0), 6.0);
    // 2.0 leaves; 6.0 stays
    assert_eq!(feed(&mut max, 3.0), 6.0);
    // 6.0 leaves: 1.0, 3.0, 0.5
    assert_eq!(feed(&mut max, 0.5), 3.0);
}

#[test]
fn maximum_unit_period_echoes() {
    let mut max = Maximum::new(1).unwrap();
    for x in [3.0, -1.0, 7.5, 7.5, -100.0, 0.0, 2.0] {
        assert_eq!(feed(&mut max, x), x);
    }
}

#[test]
fn maximum_matches_rescan() {
    let samples = [5.0, -3.0, 8.0, 8.0, 1.0, -7.0, 2.5, 9.0, 0.0, -1.0, 4.0, 4.0, 3.0];
    for p in 1..6 {
        let mut max = Maximum::new(p).unwrap();
        for k in 0..samples.len() {
            let start = if k + 1 > p { k + 1 - p } else { 0 };
            let expected = samples[start..=k].iter().cloned().fold(f64::NEG_INFINITY, f64::max);
            assert_eq!(feed(&mut max, samples[k]), expected);
        }
    }
}

#[test]
fn maximum_reset_behaves_as_new() {
    let samples = [2.0, 11.0, -4.0, 6.0, 6.5, 1.0];
    let mut used = Maximum::new(4).unwrap();
    for x in [50.0, 40.0, 30.0] {
        feed(&mut used, x);
    }
    used.reset();
    assert_eq!(used.period(), 4);
    let mut fresh = Maximum::new(4).unwrap();
    for x in samples {
        assert_eq!(feed(&mut used, x), feed(&mut fresh, x));
    }
}

#[test]
fn maximum_with_infinities() {
    let mut max = Maximum::new(2).unwrap();
    assert_eq!(feed(&mut max, f64::NEG_INFINITY), f64::NEG_INFINITY);
    assert_eq!(feed(&mut max, -5.0), -5.0);
    assert_eq!(feed(&mut max, f64::INFINITY), f64::INFINITY);
    assert_eq!(feed(&mut max, 1.0), f64::INFINITY);
    assert_eq!(feed(&mut max, 2.0), 2.0);
}

#[test]
fn maximum_nan_never_wins_a_comparison() {
    let mut max = Maximum::new(2).unwrap();
    assert_eq!(feed(&mut max, 1.0), 1.0);
    assert_eq!(feed(&mut max, f64::NAN), 1.0);
    assert_eq!(feed(&mut max, 0.5), 0.5);
}
