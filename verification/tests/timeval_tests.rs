use snapclient::timeval::TimeVal;

#[test]
fn normalize_carries_and_borrows() {
    let t = TimeVal { sec: 0, usec: 2_500_000 };
    assert_eq!(t.normalize(), TimeVal { sec: 2, usec: 500_000 });
    let u = TimeVal { sec: 3, usec: -1 };
    assert_eq!(u.normalize(), TimeVal { sec: 2, usec: 999_999 });
    // Normalizing a normalized value changes nothing.
    assert_eq!(u.normalize().normalize(), u.normalize());
    let exact = TimeVal { sec: 5, usec: 1_000_000 };
    assert_eq!(exact.normalize(), TimeVal { sec: 6, usec: 0 });
}

#[test]
fn add_sub_cancel() {
    let a = TimeVal { sec: 3, usec: 700_000 };
    let b = TimeVal { sec: 1, usec: 600_000 };
    assert_eq!(a.add(b), TimeVal { sec: 5, usec: 300_000 });
    assert_eq!(a.add(b).sub(b), a);
    let c = TimeVal { sec: -2, usec: 999_999 };
    assert_eq!(c.add(b).sub(b), c);
}

#[test]
fn abs_cases() {
    assert_eq!(TimeVal { sec: 4, usec: 250 }.abs(), TimeVal { sec: 4, usec: 250 });
    assert_eq!(TimeVal { sec: -1, usec: 999_999 }.abs(), TimeVal { sec: 0, usec: 1 });
    assert_eq!(TimeVal { sec: -3, usec: 0 }.abs(), TimeVal { sec: 3, usec: 0 });
    assert_eq!(TimeVal { sec: -3, usec: 400_000 }.abs(), TimeVal { sec: 2, usec: 600_000 });
    assert!(TimeVal { sec: -7, usec: 123 }.abs().sec >= 0);
}

#[test]
fn millis_round_trip() {
    assert_eq!(TimeVal::from_millis(0).millis(), Some(0));
    assert_eq!(TimeVal::from_millis(1).millis(), Some(1));
    assert_eq!(TimeVal::from_millis(999).millis(), Some(999));
    assert_eq!(TimeVal::from_millis(500), TimeVal { sec: 0, usec: 500_000 });
    // A second or more, and negative values, have no millisecond form.
    assert_eq!(TimeVal::from_millis(1000).millis(), None);
    assert_eq!(TimeVal::from_millis(-1).millis(), None);
    assert_eq!(TimeVal::from_millis(-1500), TimeVal { sec: -2, usec: 500_000 });
}

#[test]
fn from_micros_parts_is_exact() {
    let t = TimeVal::from_micros_parts(12, 345_678);
    assert_eq!(t, TimeVal { sec: 12, usec: 345_678 });
    assert_eq!(TimeVal::from_micros_parts(0, 0), TimeVal { sec: 0, usec: 0 });
}
