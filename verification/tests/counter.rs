use code_remote::counter::Counter;

#[test]
fn counter_test_new() {
    let counter = Counter::new(10);
    assert_eq!(counter.get_value(), 0);
}

#[test]
fn test_get_value() {
    let mut counter = Counter::new(10);
    counter.increment();
    assert_eq!(counter.get_value(), 1);
}

#[test]
fn test_increment() {
    let mut counter = Counter::new(3);
    counter.increment();
    assert_eq!(counter.get_value(), 1);
    counter.increment();
    assert_eq!(counter.get_value(), 2);
    counter.increment();
    assert_eq!(counter.get_value(), 0);
}

#[test]
fn test_decrement() {
    let mut counter = Counter::new(3);
    counter.decrement();
    assert_eq!(counter.get_value(), 2);
    counter.decrement();
    assert_eq!(counter.get_value(), 1);
    counter.decrement();
    assert_eq!(counter.get_value(), 0);
}

#[test]
fn test_update_length() {
    let mut counter = Counter::new(3);
    counter.increment();
    counter.increment();
    assert_eq!(counter.get_value(), 2);
    counter.update_length(2);
    assert_eq!(counter.get_length(), 2);
    assert_eq!(counter.get_value(), 1);
}

#[test]
fn test_increment_cycles_back_after_length_steps() {
    // starting anywhere, exactly `length` forward steps return to the start
    let mut counter = Counter::new(4);
    counter.increment();
    let start = counter.get_value();
    let mut seen = vec![start];
    for _ in 0..4 {
        counter.increment();
        seen.push(counter.get_value());
    }
    assert_eq!(counter.get_value(), start);
    // every position of [0, 4) was visited on the way
    for target in 0..4u32 {
        assert!(seen.contains(&target));
    }
}

#[test]
fn test_decrement_cycles_back_after_length_steps() {
    let mut counter = Counter::new(5);
    let start = counter.get_value();
    for _ in 0..5 {
        counter.decrement();
    }
    assert_eq!(counter.get_value(), start);
}

#[test]
fn test_reset() {
    let mut counter = Counter::new(7);
    counter.increment();
    counter.increment();
    counter.reset();
    assert_eq!(counter.get_value(), 0);
    assert_eq!(counter.get_length(), 7);
}

#[test]
fn test_update_length_keeps_value_in_range() {
    let mut counter = Counter::new(10);
    for _ in 0..9 {
        counter.increment();
    }
    assert_eq!(counter.get_value(), 9);
    counter.update_length(4);
    assert_eq!(counter.get_value(), 3);
    counter.update_length(8);
    assert_eq!(counter.get_value(), 3);
}
