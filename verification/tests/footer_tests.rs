use afk::footer::generate_footer_message;
use afk::timer::{Stamp, Timer};

#[test]
fn test_footer_empty() {
    assert!(generate_footer_message(None, &None).is_none());
}

#[test]
fn test_footer_reason_only() {
    let msg = generate_footer_message(None, &Some("tea".to_string()));
    assert_eq!(msg.as_deref(), Some("reason: tea"));
}

#[test]
fn test_footer_measuring_timer() {
    let timer = Timer::Measuring(Stamp::new(2019, 5, 3, 13, 59, 20));
    let msg = generate_footer_message(Some(&timer), &None);
    assert_eq!(msg.as_deref(), Some("left from 05/03 13:59:20"));
}

#[test]
fn test_footer_ended_timer() {
    let timer = Timer::Ended(
        Stamp::new(2019, 5, 3, 13, 50, 20),
        Stamp::new(2019, 5, 3, 18, 53, 30),
    );
    let msg = generate_footer_message(Some(&timer), &None);
    assert_eq!(
        msg.as_deref(),
        Some("\u{1b}[2Kleft from 05/03 13:50:20 to 05/03 18:53:30 (5h3m)")
    );
}

#[test]
fn test_footer_timer_and_reason() {
    let timer = Timer::Ended(
        Stamp::new(2019, 5, 3, 13, 50, 20),
        Stamp::new(2019, 5, 3, 13, 53, 30),
    );
    let msg = generate_footer_message(Some(&timer), &Some("tea".to_string()));
    assert_eq!(
        msg.as_deref(),
        Some("\u{1b}[2Kleft from 05/03 13:50:20 to 05/03 13:53:30 (3m10s) | reason: tea")
    );
}

#[test]
fn test_footer_measuring_with_reason() {
    let timer = Timer::Measuring(Stamp::new(2019, 5, 3, 13, 59, 20));
    let msg = generate_footer_message(Some(&timer), &Some("lunch".to_string()));
    assert_eq!(
        msg.as_deref(),
        Some("left from 05/03 13:59:20 | reason: lunch")
    );
}
