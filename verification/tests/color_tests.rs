use afk::color::{Colorizer, Rgb};

#[test]
fn test_cycle_starts_at_bounds() {
    let c = Colorizer::new();
    assert_eq!(c.current_sample(), Rgb { r: 30, g: 200, b: 200 });
}

#[test]
fn test_first_samples_ramp() {
    let mut c = Colorizer::new();
    assert_eq!(c.next(), Rgb { r: 35, g: 195, b: 200 });
    assert_eq!(c.next(), Rgb { r: 40, g: 190, b: 200 });
}

#[test]
fn test_channel_handoff() {
    let mut c = Colorizer::new();
    let mut last = c.current_sample();
    for _ in 0..34 {
        last = c.next();
    }
    assert_eq!(last, Rgb { r: 200, g: 30, b: 200 });
    assert_eq!(c.next(), Rgb { r: 200, g: 35, b: 195 });
}

#[test]
fn test_cycle_closure() {
    let mut c = Colorizer::new();
    let init = c.current_sample();
    let mut last = init;
    for _ in 0..102 {
        last = c.next();
    }
    assert_eq!(last, init);
}

#[test]
fn test_each_step_moves_two_channels() {
    let mut c = Colorizer::new();
    let mut prev = c.current_sample();
    for _ in 0..300 {
        let cur = c.next();
        let deltas = [
            cur.r as i32 - prev.r as i32,
            cur.g as i32 - prev.g as i32,
            cur.b as i32 - prev.b as i32,
        ];
        assert_eq!(deltas.iter().filter(|d| **d == 5).count(), 1);
        assert_eq!(deltas.iter().filter(|d| **d == -5).count(), 1);
        assert_eq!(deltas.iter().filter(|d| **d == 0).count(), 1);
        prev = cur;
    }
}

#[test]
fn test_skip_equals_sequential_calls() {
    let mut a = Colorizer::new();
    a.skip(37);
    let mut b = Colorizer::new();
    for _ in 0..37 {
        let _ = b.next();
    }
    for _ in 0..10 {
        assert_eq!(a.next(), b.next());
    }
}

#[test]
fn test_skip_zero_is_noop() {
    let mut a = Colorizer::new();
    a.skip(0);
    let mut b = Colorizer::new();
    assert_eq!(a.next(), b.next());
}
