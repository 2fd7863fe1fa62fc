use dataset_transfer::timestamp::{basic_date, basic_timestamp, rfc3339, utc_now, UtcTime};

#[test]
fn renderings_are_fixed_width() {
    let t = UtcTime { year: 987, month: 1, day: 2, hour: 3, minute: 4, second: 5 };
    assert_eq!(basic_date(&t), "09870102");
    assert_eq!(basic_timestamp(&t), "09870102T030405Z");
    assert_eq!(rfc3339(&t), "0987-01-02T03:04:05+00:00");
}

#[test]
fn clock_yields_a_renderable_time() {
    let t = utc_now();
    assert!((1..=12).contains(&t.month));
    assert!((1..=31).contains(&t.day));
    assert!(t.hour <= 23 && t.minute <= 59 && t.second <= 59);
    assert!((2020..=9999).contains(&t.year));
    assert_eq!(rfc3339(&t).len(), 25);
}
