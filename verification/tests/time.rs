use archelon::time::{Date, Span, Timestamp};

fn ts(days: i32, secs: u32, nanos: u32) -> Timestamp {
    Timestamp { date: Date { days }, secs, nanos }
}

#[test]
fn ordering_and_elapsed() {
    assert!(ts(1, 5, 0).is_before(&ts(1, 6, 0)));
    assert!(ts(1, 5, 0).is_before(&ts(2, 0, 0)));
    assert!(!ts(1, 5, 3).is_before(&ts(1, 5, 3)));
    assert!(ts(10, 0, 0).elapsed_at_least(&ts(9, 0, 0), &Span::days(1)));
    assert!(!ts(10, 0, 0).elapsed_at_least(&ts(9, 0, 1), &Span::days(1)));
    assert!(ts(10, 3600, 0).elapsed_at_least(&ts(10, 0, 0), &Span::hours(1)));
    // a leap second counts as one more second
    assert!(ts(10, 60, 0).elapsed_at_least(&ts(10, 59, 1_000_000_000), &Span { secs: 0, nanos: 0 }));
}

#[test]
fn day_arithmetic() {
    let d = Date { days: 739000 }; // 2024-04-24, a Wednesday
    assert_eq!(d.num_days_from_monday(), 2);
    assert_eq!(d.num_days_from_sunday(), 3);
    assert_eq!(d.add_days(-3), Date { days: 738997 });
    assert_eq!(d.start_of_day(), ts(739000, 0, 0));
    assert_eq!(d.end_of_day(), ts(739000, 86399, 0));
    assert!(d.is_in_range(Some(Date { days: 739000 }), None));
}
