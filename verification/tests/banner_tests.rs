use afk::banner::{bak_lines, bak_lines_with_skip};

#[test]
fn test_plain_banner_is_the_block() {
    let out = bak_lines(false);
    assert_eq!(out.len(), 9);
    assert_eq!(out[0], " _________                       __    ___ ");
    assert_eq!(out[8], "|_________/   /__/        \\__\\  |__|  \\__\\ ");
    for row in &out {
        assert!(!row.contains('\u{1b}'));
        assert_eq!(row.chars().count(), 43);
    }
}

#[test]
fn test_colored_banner_paints_every_cell() {
    let out = bak_lines(true);
    assert_eq!(out.len(), 9);
    for row in &out {
        // one escape prefix and one reset per column, blanks included
        assert_eq!(row.matches("\u{1b}[38;2;").count(), 43);
        assert_eq!(row.matches("\u{1b}[39m").count(), 43);
    }
}

#[test]
fn test_banner_with_fixed_skip_is_deterministic() {
    let first = bak_lines_with_skip(true, 5);
    let again = bak_lines_with_skip(true, 5);
    assert_eq!(first, again);
    let other = bak_lines_with_skip(true, 6);
    assert_ne!(first, other);
}

#[test]
fn test_banner_skip_zero_prefix() {
    let out = bak_lines_with_skip(true, 0);
    // first two cells of the first row: a blank and an underscore, painted
    // with the first two samples of the sweep
    let expected = "\u{1b}[38;2;35;195;200m \u{1b}[39m\u{1b}[38;2;40;190;200m_\u{1b}[39m";
    assert!(out[0].starts_with(expected));
}
