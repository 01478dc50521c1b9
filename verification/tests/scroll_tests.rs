use afk::pattern::{AfkAA, str_chars};
use afk::scroll::{Lines, ScrollError};

fn strip_ansi(s: &str) -> String {
    let mut out = String::new();
    let mut in_escape = false;
    for ch in s.chars() {
        if in_escape {
            if ch == 'm' {
                in_escape = false;
            }
        } else if ch == '\u{1b}' {
            in_escape = true;
        } else {
            out.push(ch);
        }
    }
    out
}

#[test]
fn test_update_leaves_one_column_short() {
    let mut lines = Lines::new(false).unwrap();
    let out = lines.update(20);
    assert_eq!(out.len(), 10);
    for row in &out {
        assert_eq!(row.chars().count(), 19);
    }
    let out2 = lines.update(20);
    for row in &out2 {
        assert_eq!(row.chars().count(), 19);
    }
}

#[test]
fn test_abrupt_narrowing_shrinks_at_once() {
    let mut lines = Lines::new(false).unwrap();
    let _ = lines.update(20);
    let out = lines.update(3);
    for row in &out {
        assert_eq!(row.chars().count(), 2);
    }
    let out2 = lines.update(3);
    for row in &out2 {
        assert_eq!(row.chars().count(), 2);
    }
}

#[test]
fn test_width_one_leaves_empty_rows() {
    let mut lines = Lines::new(false).unwrap();
    let out = lines.update(1);
    for row in &out {
        assert_eq!(row.len(), 0);
    }
}

#[test]
fn test_same_width_still_advances() {
    let mut lines = Lines::new(false).unwrap();
    let first = lines.update(10);
    let second = lines.update(10);
    assert_ne!(first, second);
}

#[test]
fn test_row_lengths_mutually_equal() {
    let mut plain = Lines::new(false).unwrap();
    let mut colored = Lines::new(true).unwrap();
    for width in [7, 31, 2, 18] {
        let out = plain.update(width);
        let len0 = out[0].chars().count();
        for row in &out {
            assert_eq!(row.chars().count(), len0);
        }
        let out = colored.update(width);
        let len0 = strip_ansi(&out[0]).chars().count();
        for row in &out {
            assert_eq!(strip_ansi(row).chars().count(), len0);
        }
    }
}

#[test]
fn test_no_escapes_when_uncolored() {
    let mut lines = Lines::new(false).unwrap();
    for width in [15, 40, 3, 15] {
        for row in &lines.update(width) {
            assert!(!row.contains('\u{1b}'));
        }
    }
}

#[test]
fn test_colored_rows_carry_escapes() {
    let mut lines = Lines::new(true).unwrap();
    let out = lines.update(30);
    assert!(out.iter().any(|row| row.contains("\u{1b}[38;2;")));
    assert!(out.iter().any(|row| row.contains("\u{1b}[39m")));
}

#[test]
fn test_blank_cells_stay_unpainted() {
    let mut lines = Lines::new(true).unwrap();
    let out = lines.update(30);
    // the last row of the built-in block is entirely blank
    assert!(!out[9].contains('\u{1b}'));
    assert_eq!(out[9].chars().count(), 29);
}

#[test]
fn test_eviction_from_empty_window_is_refused() {
    let mut lines = Lines::new(false).unwrap();
    assert!(matches!(
        lines.remove_first_vertical_line(),
        Err(ScrollError::EmptyWindow)
    ));
}

#[test]
fn test_add_and_remove_report_width() {
    let mut lines = Lines::new(false).unwrap();
    assert_eq!(lines.add_vertical_line(), 1);
    assert_eq!(lines.add_vertical_line(), 2);
    assert_eq!(lines.remove_first_vertical_line().unwrap(), 1);
}

#[test]
fn test_three_by_five_block_cycles_every_seven() {
    let rows = vec![str_chars("abcde"), str_chars("fghij"), str_chars("klmno")];
    let p = AfkAA::from_rows(&rows, 2).unwrap();
    let mut lines = Lines::from_pattern(p, false);
    let frames: Vec<Vec<String>> = (0..15).map(|_| lines.update(5)).collect();
    assert_eq!(frames[0], vec!["bcde", "ghij", "lmno"]);
    assert_eq!(frames[1], vec!["cde ", "hij ", "mno "]);
    assert_eq!(frames[2], vec!["de  ", "ij  ", "no  "]);
    assert_eq!(frames[3], vec!["e  a", "j  f", "o  k"]);
    for k in 0..8 {
        assert_eq!(frames[k], frames[k + 7]);
    }
}

#[test]
fn test_color_buffer_advances_eight_per_column() {
    // a one-row block whose cells are never blank, so every cell is painted
    let rows = vec![str_chars("ab")];
    let p = AfkAA::from_rows(&rows, 0).unwrap();
    let mut lines = Lines::from_pattern(p, true);
    let out = lines.update(2);
    // two columns pulled, one evicted: the surviving column holds the
    // sixteenth sample of the sweep
    assert_eq!(out, vec!["\u{1b}[38;2;110;120;200mb\u{1b}[39m"]);
}
