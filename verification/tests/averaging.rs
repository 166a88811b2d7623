use moving_average::{InvalidSize, MovingAverage};

#[test]
fn test_ma() {
    let mut ma = MovingAverage::<f32>::new(10).unwrap();
    assert_eq!(ma.feed(1.0), 0.1);
    assert_eq!(ma.feed(1.0), 0.2);
    assert_eq!(ma.feed(1.0), 0.3);
    assert_eq!(ma.feed(1.0), 0.4);
    assert_eq!(ma.feed(1.0), 0.5);
    assert_eq!(ma.feed(1.0), 0.6);
    assert_eq!(ma.feed(1.0), 0.7);
    assert_eq!(ma.feed(1.0), 0.8);
    assert_eq!(ma.feed(1.0), 0.9);
    assert_eq!(ma.feed(1.0), 1.0);
    assert_eq!(ma.feed(0.0), 0.9);
    assert_eq!(ma.feed(0.0), 0.8);
    assert_eq!(ma.feed(0.0), 0.7);
    assert_eq!(ma.feed(0.0), 0.6);
    assert_eq!(ma.feed(0.0), 0.5);
    assert_eq!(ma.feed(0.0), 0.4);
    assert_eq!(ma.feed(0.0), 0.3);
    assert_eq!(ma.feed(0.0), 0.2);
    assert_eq!(ma.feed(0.0), 0.1);
    assert_eq!(ma.feed(0.0), 0.0);
}

#[test]
fn ten_slot_window_ramps_up_and_down_in_double_precision() {
    let mut ma = MovingAverage::<f64>::new(10).unwrap();
    let up = [0.1, 0.2, 0.3, 0.4, 0.5, 0.6, 0.7, 0.8, 0.9, 1.0];
    for expected in up {
        assert_eq!(ma.feed(1.0), expected);
    }
    let down = [0.9, 0.8, 0.7, 0.6, 0.5, 0.4, 0.3, 0.2, 0.1, 0.0];
    for expected in down {
        assert_eq!(ma.feed(0.0), expected);
    }
}

#[test]
fn filling_a_fresh_window_climbs_by_one_nth_per_feed() {
    let mut ma = MovingAverage::<f64>::new(4).unwrap();
    assert_eq!(ma.feed(1.0), 0.25);
    assert_eq!(ma.feed(1.0), 0.5);
    assert_eq!(ma.feed(1.0), 0.75);
    assert_eq!(ma.feed(1.0), 1.0);
}

#[test]
fn draining_a_full_window_falls_by_one_nth_per_feed() {
    let mut ma = MovingAverage::<f64>::new(4).unwrap();
    for _ in 0..4 {
        ma.feed(1.0);
    }
    assert_eq!(ma.feed(0.0), 0.75);
    assert_eq!(ma.feed(0.0), 0.5);
    assert_eq!(ma.feed(0.0), 0.25);
    assert_eq!(ma.feed(0.0), 0.0);
}

#[test]
fn full_window_of_one_value_returns_that_value() {
    let mut ma = MovingAverage::<f64>::new(4).unwrap();
    ma.feed(7.0);
    ma.feed(-3.0);
    for _ in 0..4 {
        ma.feed(2.5);
    }
    for _ in 0..9 {
        assert_eq!(ma.feed(2.5), 2.5);
    }
}

#[test]
fn steady_state_is_only_as_exact_as_the_arithmetic() {
    let mut ma = MovingAverage::<f64>::new(3).unwrap();
    ma.feed(0.1);
    ma.feed(0.1);
    let mean = ma.feed(0.1);
    assert_eq!(mean, 0.10000000000000002);
    assert_ne!(mean, 0.1);
    assert_eq!(ma.feed(0.1), 0.10000000000000002);
}

#[test]
fn unfed_slots_count_as_zero() {
    let mut ma = MovingAverage::<f64>::new(4).unwrap();
    assert_eq!(ma.avg(), 0.0);
    assert_eq!(ma.feed(4.0), 1.0);
    assert_eq!(ma.feed(4.0), 2.0);
}

#[test]
fn reading_twice_gives_the_same_mean() {
    let mut ma = MovingAverage::<f64>::new(3).unwrap();
    let fed = ma.feed(1.5);
    assert_eq!(fed, 0.5);
    assert_eq!(ma.avg(), fed);
    assert_eq!(ma.avg(), fed);
    ma.feed(3.0);
    let first = ma.avg();
    let second = ma.avg();
    assert_eq!(first, 1.5);
    assert_eq!(first.to_bits(), second.to_bits());
}

#[test]
fn feed_after_a_full_round_overwrites_the_oldest() {
    let mut ma = MovingAverage::<f64>::new(3).unwrap();
    assert_eq!(ma.feed(1.0), 0.3333333333333333);
    assert_eq!(ma.feed(2.0), 1.0);
    assert_eq!(ma.feed(3.0), 2.0);
    assert_eq!(ma.feed(4.0), 3.0);
    assert_eq!(ma.feed(5.0), 4.0);
    assert_eq!(ma.feed(6.0), 5.0);
    assert_eq!(ma.feed(7.0), 6.0);
}

#[test]
fn window_of_one_returns_each_sample() {
    let mut ma = MovingAverage::<f32>::new(1).unwrap();
    assert_eq!(ma.feed(3.5), 3.5);
    assert_eq!(ma.feed(-8.0), -8.0);
    assert_eq!(ma.avg(), -8.0);
}

#[test]
fn an_infinite_sample_leaves_with_its_slot() {
    let mut ma = MovingAverage::<f64>::new(2).unwrap();
    assert_eq!(ma.feed(f64::INFINITY), f64::INFINITY);
    assert_eq!(ma.feed(1.0), f64::INFINITY);
    assert_eq!(ma.feed(3.0), 2.0);
}

#[test]
fn a_nan_sample_leaves_with_its_slot() {
    let mut ma = MovingAverage::<f64>::new(2).unwrap();
    assert!(ma.feed(f64::NAN).is_nan());
    assert!(ma.feed(1.0).is_nan());
    assert_eq!(ma.feed(2.0), 1.5);
}

#[test]
fn zero_size_is_refused() {
    assert_eq!(MovingAverage::<f32>::new(0).err(), Some(InvalidSize::Zero));
    assert_eq!(MovingAverage::<f64>::new(0).err(), Some(InvalidSize::Zero));
    assert_eq!(
        MovingAverage::<f64>::from_parts(0, 0.0, Some(0.0)).err(),
        Some(InvalidSize::Zero)
    );
    assert_eq!(
        MovingAverage::<f64>::from_parts(0, 0.0, None).err(),
        Some(InvalidSize::Zero)
    );
}

#[test]
fn size_without_a_sample_for_it_is_refused() {
    assert_eq!(
        MovingAverage::<f64>::from_parts(3, 0.0, None).err(),
        Some(InvalidSize::NotRepresentable)
    );
}

#[test]
fn every_positive_size_has_a_sample_in_the_primitive_types() {
    assert!(MovingAverage::<f32>::new(1).is_ok());
    assert!(MovingAverage::<f64>::new(1).is_ok());
    assert!(MovingAverage::<f32>::new(16_777_217).is_ok());
}

#[test]
fn parts_set_the_start_of_the_sum_and_the_divisor() {
    let mut ma = MovingAverage::<f64>::from_parts(2, 1.0, Some(4.0)).unwrap();
    assert_eq!(ma.avg(), 0.75);
    assert_eq!(ma.feed(3.0), 1.25);
    assert_eq!(ma.feed(5.0), 2.25);
    assert_eq!(ma.feed(0.0), 1.5);
}

#[test]
fn mean_is_the_sum_in_slot_order_over_the_size() {
    let mut ma = MovingAverage::<f64>::new(3).unwrap();
    ma.feed(1e16);
    ma.feed(1.0);
    let mean = ma.feed(-1e16);
    assert_eq!(mean, ((0.0 + 1e16) + 1.0 + -1e16) / 3.0);
    assert_eq!(mean, 0.0);
    let mean = ma.feed(1.0);
    assert_eq!(mean, ((0.0 + 1.0) + 1.0 + -1e16) / 3.0);
}
