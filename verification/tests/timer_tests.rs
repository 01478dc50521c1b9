use afk::timer::{Stamp, Timer};

#[test]
fn test_measuring_start_format() {
    let timer = Timer::Measuring(Stamp::new(2019, 5, 3, 13, 59, 20));
    assert_eq!(
        "05/03 13:59:20".to_string(),
        timer.formatted_start().to_string(),
    );
}

#[test]
fn test_ended_start_format() {
    let timer = Timer::Ended(
        Stamp::new(2019, 5, 3, 13, 59, 20),
        Stamp::new(2021, 9, 4, 18, 43, 10),
    );
    assert_eq!(
        "05/03 13:59:20".to_string(),
        timer.formatted_start().to_string(),
    );
}

#[test]
fn test_ended_end_format() {
    let timer = Timer::Ended(
        Stamp::new(2019, 5, 3, 13, 59, 20),
        Stamp::new(2021, 9, 4, 18, 43, 10),
    );
    assert_eq!(
        "09/04 18:43:10".to_string(),
        timer.formatted_end().to_string(),
    );
}

#[test]
fn test_ended_duration_format_over_1_hour() {
    let timer = Timer::Ended(
        Stamp::new(2019, 5, 3, 13, 50, 20),
        Stamp::new(2019, 5, 3, 18, 53, 30),
    );
    assert_eq!("5h3m".to_string(), timer.formatted_duration(),);
}

#[test]
fn test_ended_duration_format_between_1_min_with_1_hour() {
    let timer = Timer::Ended(
        Stamp::new(2019, 5, 3, 13, 50, 20),
        Stamp::new(2019, 5, 3, 13, 53, 30),
    );
    assert_eq!("3m10s".to_string(), timer.formatted_duration(),);
}

#[test]
fn test_ended_duration_format_under_1_min() {
    let timer = Timer::Ended(
        Stamp::new(2019, 5, 3, 13, 50, 20).with_nanosecond(490_000_000),
        Stamp::new(2019, 5, 3, 13, 51, 9).with_nanosecond(601_000_000),
    );
    assert_eq!("49.11s".to_string(), timer.formatted_duration(),);
}

#[test]
fn test_duration_across_midnight() {
    let timer = Timer::Ended(
        Stamp::new(2019, 5, 3, 23, 50, 20),
        Stamp::new(2019, 5, 4, 1, 53, 30),
    );
    assert_eq!("2h3m".to_string(), timer.formatted_duration());
}

#[test]
fn test_duration_across_month() {
    let timer = Timer::Ended(
        Stamp::new(2019, 4, 30, 23, 0, 0),
        Stamp::new(2019, 5, 1, 0, 30, 10),
    );
    assert_eq!("1h30m".to_string(), timer.formatted_duration());
}

#[test]
fn test_duration_over_leap_day() {
    let timer = Timer::Ended(
        Stamp::new(2020, 2, 28, 12, 0, 0),
        Stamp::new(2020, 3, 1, 12, 0, 0),
    );
    assert_eq!("48h0m".to_string(), timer.formatted_duration());
}

#[test]
fn test_duration_exact_minute() {
    let timer = Timer::Ended(
        Stamp::new(2019, 5, 3, 13, 50, 0),
        Stamp::new(2019, 5, 3, 13, 51, 0),
    );
    assert_eq!("1m0s".to_string(), timer.formatted_duration());
}

#[test]
fn test_duration_under_one_second() {
    let timer = Timer::Ended(
        Stamp::new(2019, 5, 3, 13, 50, 20),
        Stamp::new(2019, 5, 3, 13, 50, 20).with_nanosecond(470_000_000),
    );
    assert_eq!("0.47s".to_string(), timer.formatted_duration());
}

#[test]
fn test_duration_zero() {
    let timer = Timer::Ended(
        Stamp::new(2019, 5, 3, 13, 50, 20),
        Stamp::new(2019, 5, 3, 13, 50, 20),
    );
    assert_eq!("0.00s".to_string(), timer.formatted_duration());
}

#[test]
fn test_timer_start_is_measuring() {
    let timer = Timer::start();
    assert!(timer.is_measuring());
    let s = timer.formatted_start();
    let bytes = s.as_bytes();
    assert_eq!(bytes.len(), 14);
    assert_eq!(bytes[2], b'/');
    assert_eq!(bytes[5], b' ');
    assert_eq!(bytes[8], b':');
    assert_eq!(bytes[11], b':');
    for i in [0, 1, 3, 4, 6, 7, 9, 10, 12, 13] {
        assert!(bytes[i].is_ascii_digit());
    }
}

#[test]
fn test_timer_finish_ends() {
    let mut timer = Timer::start();
    timer.finish();
    assert!(!timer.is_measuring());
    let d = timer.formatted_duration();
    assert!(d.ends_with('s'));
}
