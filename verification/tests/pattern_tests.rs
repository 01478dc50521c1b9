use afk::pattern::{AfkAA, PatternError, str_chars};

#[test]
fn test_slices_are_periodic() {
    let rows = vec![str_chars("ab "), str_chars("cd"), str_chars("e")];
    let mut p = AfkAA::from_rows(&rows, 2).unwrap();
    assert_eq!(p.height(), 3);
    let slices: Vec<Vec<char>> = (0..15).map(|_| p.next()).collect();
    assert_eq!(slices[0], vec!['a', 'c', 'e']);
    assert_eq!(slices[1], vec!['b', 'd', ' ']);
    assert_eq!(slices[2], vec![' ', ' ', ' ']);
    assert_eq!(slices[3], vec![' ', ' ', ' ']);
    assert_eq!(slices[4], vec![' ', ' ', ' ']);
    for k in 0..10 {
        assert_eq!(slices[k], slices[k + 5]);
    }
}

#[test]
fn test_gap_zero_wraps_at_block_width() {
    let rows = vec![str_chars("xy")];
    let mut p = AfkAA::from_rows(&rows, 0).unwrap();
    assert_eq!(p.next(), vec!['x']);
    assert_eq!(p.next(), vec!['y']);
    assert_eq!(p.next(), vec!['x']);
}

#[test]
fn test_empty_block_is_refused() {
    let rows: Vec<Vec<char>> = Vec::new();
    assert!(matches!(
        AfkAA::from_rows(&rows, 3),
        Err(PatternError::DegenerateBlock)
    ));
}

#[test]
fn test_blank_block_is_refused() {
    let rows = vec![str_chars(""), str_chars("")];
    assert!(matches!(
        AfkAA::from_rows(&rows, 3),
        Err(PatternError::DegenerateBlock)
    ));
}

#[test]
fn test_built_in_block_shape() {
    let mut p = AfkAA::new(20).unwrap();
    assert_eq!(p.height(), 10);
    let first = p.next();
    assert_eq!(
        first,
        vec![' ', ' ', ' ', ' ', ' ', ' ', ' ', ' ', '/', ' ']
    );
}
