use game_of_life::grid::Grid;
use game_of_life::seed::SeedError;
use game_of_life::seed::grid_from_lines;
use game_of_life::seed::parse_seed_line;
use game_of_life::seed::random_grid;

#[test]
fn parses_two_numbers() {
    assert_eq!(parse_seed_line(&b"5 7".to_vec()), Some((5, 7)));
    assert_eq!(parse_seed_line(&b"0 0".to_vec()), Some((0, 0)));
    assert_eq!(parse_seed_line(&b"10  20".to_vec()), Some((10, 20)));
}

#[test]
fn tolerates_surrounding_blanks() {
    assert_eq!(parse_seed_line(&b"  5\t7  ".to_vec()), Some((5, 7)));
    assert_eq!(parse_seed_line(&b"\t\t3 4".to_vec()), Some((3, 4)));
}

#[test]
fn ignores_tokens_past_the_second() {
    assert_eq!(parse_seed_line(&b"5 7 9".to_vec()), Some((5, 7)));
    assert_eq!(parse_seed_line(&b"1 2 x".to_vec()), Some((1, 2)));
}

#[test]
fn rejects_short_or_empty_lines() {
    assert_eq!(parse_seed_line(&b"".to_vec()), None);
    assert_eq!(parse_seed_line(&b"   ".to_vec()), None);
    assert_eq!(parse_seed_line(&b"5".to_vec()), None);
    assert_eq!(parse_seed_line(&b"5 ".to_vec()), None);
}

#[test]
fn rejects_non_digits() {
    assert_eq!(parse_seed_line(&b"a 7".to_vec()), None);
    assert_eq!(parse_seed_line(&b"5 b".to_vec()), None);
    assert_eq!(parse_seed_line(&b"5x 7".to_vec()), None);
    assert_eq!(parse_seed_line(&b"-1 7".to_vec()), None);
    assert_eq!(parse_seed_line(&b"5.0 7".to_vec()), None);
}

#[test]
fn accepts_leading_zeros() {
    assert_eq!(parse_seed_line(&b"007 05".to_vec()), Some((7, 5)));
    assert_eq!(parse_seed_line(&b"000 0".to_vec()), Some((0, 0)));
}

#[test]
fn rejects_numbers_that_overflow() {
    let line = b"99999999999999999999999999999999 1".to_vec();
    assert_eq!(parse_seed_line(&line), None);
    let line2 = b"1 99999999999999999999999999999999".to_vec();
    assert_eq!(parse_seed_line(&line2), None);
    // the largest value that fits still parses; one past it does not
    let max = usize::MAX.to_string();
    let fits = format!("{} 1", max).into_bytes();
    assert_eq!(parse_seed_line(&fits), Some((usize::MAX, 1)));
    let past = format!("{}0 1", max).into_bytes();
    assert_eq!(parse_seed_line(&past), None);
}

#[test]
fn builds_grid_from_good_lines() {
    let lines = vec![b"1 2".to_vec(), b"3 4".to_vec(), b"0 0".to_vec()];
    let g = match grid_from_lines(10, &lines) {
        Ok(g) => g,
        Err(_) => panic!("expected a grid"),
    };
    assert_eq!(g.size(), 10);
    assert!(g.get(1, 2));
    assert!(g.get(3, 4));
    assert!(g.get(0, 0));
    assert_eq!(g.population(), 3);
}

#[test]
fn repeated_coordinates_mark_one_cell() {
    let lines = vec![b"2 2".to_vec(), b"2 2".to_vec()];
    let g = grid_from_lines(5, &lines).unwrap_or_else(|_| panic!("expected a grid"));
    assert!(g.get(2, 2));
    assert_eq!(g.population(), 1);
}

#[test]
fn empty_text_gives_empty_grid() {
    let lines: Vec<Vec<u8>> = Vec::new();
    let g = grid_from_lines(4, &lines).unwrap_or_else(|_| panic!("expected a grid"));
    assert_eq!(g.population(), 0);
}

#[test]
fn reports_first_malformed_line() {
    let lines = vec![b"1 2".to_vec(), b"x".to_vec(), b"3 4".to_vec()];
    let r = grid_from_lines(10, &lines);
    assert_eq!(r.err(), Some(SeedError::Malformed { line: 1 }));
}

#[test]
fn reports_first_out_of_range_line() {
    let lines = vec![b"1 2".to_vec(), b"10 1".to_vec()];
    let r = grid_from_lines(10, &lines);
    assert_eq!(r.err(), Some(SeedError::OutOfRange { line: 1 }));
    let lines2 = vec![b"1 10".to_vec()];
    let r2 = grid_from_lines(10, &lines2);
    assert_eq!(r2.err(), Some(SeedError::OutOfRange { line: 0 }));
}

#[test]
fn stops_at_the_first_offending_line() {
    // the malformed line comes before the out-of-range one and wins
    let lines = vec![b"bad".to_vec(), b"99 99".to_vec()];
    let r = grid_from_lines(10, &lines);
    assert_eq!(r.err(), Some(SeedError::Malformed { line: 0 }));
}

#[test]
fn random_grid_has_requested_size() {
    let g = random_grid(20);
    assert_eq!(g.size(), 20);
    assert!(g.population() <= 400);
    let h = random_grid(0);
    assert_eq!(h.size(), 0);
    assert_eq!(h.population(), 0);
}
