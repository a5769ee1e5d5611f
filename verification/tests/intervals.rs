use tokio_socketcan_bcm::{c_timeval_new, Interval, Timeval, WordSize};

#[test]
fn nanoseconds_stay_below_a_second() {
    assert!(Interval::new(1, 999_999_999).is_some());
    assert_eq!(Interval::new(1, 1_000_000_000), None);
    assert_eq!(Interval::new(0, 0), Some(Interval::zero()));
}

#[test]
fn time_is_rounded_down_to_microseconds() {
    let t = Interval::new(3, 5_000_999).unwrap();
    let expected = Timeval {
        tv_sec: 3,
        tv_usec: 5000,
    };
    assert_eq!(c_timeval_new(WordSize::Bits64, t), expected);
    assert_eq!(c_timeval_new(WordSize::Bits32, t), expected);
}

#[test]
fn below_a_microsecond_is_zero() {
    let t = Interval::new(0, 999).unwrap();
    assert_eq!(
        c_timeval_new(WordSize::Bits64, t),
        Timeval {
            tv_sec: 0,
            tv_usec: 0
        }
    );
}

#[test]
fn largest_microseconds() {
    let t = Interval::new(0, 999_999_999).unwrap();
    assert_eq!(c_timeval_new(WordSize::Bits64, t).tv_usec, 999_999);
}

#[test]
fn seconds_wrap_at_the_width_of_long() {
    let t = Interval::new(u64::MAX, 0).unwrap();
    assert_eq!(c_timeval_new(WordSize::Bits64, t).tv_sec, -1);
    assert_eq!(c_timeval_new(WordSize::Bits32, t).tv_sec, -1);
    let t = Interval::new(0x8000_0000, 0).unwrap();
    assert_eq!(c_timeval_new(WordSize::Bits64, t).tv_sec, 0x8000_0000);
    assert_eq!(c_timeval_new(WordSize::Bits32, t).tv_sec, -0x8000_0000);
    let t = Interval::new(0x1_0000_0005, 0).unwrap();
    assert_eq!(c_timeval_new(WordSize::Bits32, t).tv_sec, 5);
}

#[test]
fn agrees_with_the_standard_library() {
    let d = std::time::Duration::new(77, 123_456_789);
    let t = Interval::new(d.as_secs(), d.subsec_nanos()).unwrap();
    let tv = c_timeval_new(WordSize::Bits64, t);
    assert_eq!(tv.tv_sec, d.as_secs() as i64);
    assert_eq!(tv.tv_usec, i64::from(d.subsec_micros()));
}
