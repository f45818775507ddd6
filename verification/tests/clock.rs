use voicechat::clock::{stamp, LocalTime};

#[test]
fn local_stamps_are_padded() {
    let t = LocalTime { hour: 9, minute: 5, second: 0 };
    assert_eq!(stamp(Some(t), 0, 7), "09:05:00.007");
    let t = LocalTime { hour: 23, minute: 59, second: 60 };
    assert_eq!(stamp(Some(t), 0, 999), "23:59:60.999");
}

#[test]
fn stamps_fall_back_to_the_epoch() {
    assert_eq!(stamp(None, 1718755200, 42), "1718755200.042");
    assert_eq!(stamp(None, 0, 0), "0.000");
    assert_eq!(stamp(None, u64::MAX, 100), "18446744073709551615.100");
}
