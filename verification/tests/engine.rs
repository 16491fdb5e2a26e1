use game_of_life::grid::Grid;

#[test]
fn next_generation_keeps_dimensions() {
    let mut g = Grid::new(20);
    g.set(3, 4, true);
    g.set(10, 10, true);
    let next = g.next_generation();
    assert_eq!(next.size(), 20);
    let empty = Grid::new(7);
    assert_eq!(empty.next_generation().size(), 7);
}

#[test]
fn lone_cell_dies() {
    let mut g = Grid::new(20);
    g.set(5, 5, true);
    assert_eq!(g.population(), 1);
    let next = g.next_generation();
    assert_eq!(next.population(), 0);
    assert!(next == Grid::new(20));
}

#[test]
fn two_neighbors_is_underpopulation_for_none() {
    // two adjacent cells: each has exactly one live neighbor, so both die
    let mut g = Grid::new(10);
    g.set(4, 4, true);
    g.set(4, 5, true);
    let next = g.next_generation();
    assert_eq!(next.population(), 0);
}

#[test]
fn overpopulation_kills() {
    // the center of a plus-shape has 4 live neighbors and dies
    let mut g = Grid::new(10);
    g.set(5, 5, true);
    g.set(4, 5, true);
    g.set(6, 5, true);
    g.set(5, 4, true);
    g.set(5, 6, true);
    assert_eq!(g.count_neighbors(5, 5), 4);
    let next = g.next_generation();
    assert!(!next.get(5, 5));
}

#[test]
fn dead_cell_with_three_neighbors_is_born() {
    let mut g = Grid::new(10);
    g.set(4, 4, true);
    g.set(4, 5, true);
    g.set(4, 6, true);
    assert!(!g.get(5, 5));
    assert_eq!(g.count_neighbors(5, 5), 3);
    let next = g.next_generation();
    assert!(next.get(5, 5));
}

#[test]
fn dead_cell_with_other_counts_stays_dead() {
    // two live neighbors: not enough for a birth
    let mut g = Grid::new(10);
    g.set(4, 4, true);
    g.set(4, 5, true);
    assert_eq!(g.count_neighbors(5, 5), 2);
    assert!(!g.next_generation().get(5, 5));
    // four live neighbors: too many for a birth
    let mut h = Grid::new(10);
    h.set(4, 4, true);
    h.set(4, 5, true);
    h.set(4, 6, true);
    h.set(5, 4, true);
    assert_eq!(h.count_neighbors(5, 5), 4);
    assert!(!h.next_generation().get(5, 5));
}

#[test]
fn block_is_stable() {
    let mut g = Grid::new(10);
    g.set(4, 4, true);
    g.set(4, 5, true);
    g.set(5, 4, true);
    g.set(5, 5, true);
    let next = g.next_generation();
    assert!(next == g);
    assert!(next.next_generation() == g);
}

#[test]
fn blinker_oscillates_with_period_two() {
    let mut g = Grid::new(20);
    g.set(5, 4, true);
    g.set(5, 5, true);
    g.set(5, 6, true);
    let once = g.next_generation();
    // the horizontal bar turns vertical
    assert!(once.get(4, 5));
    assert!(once.get(5, 5));
    assert!(once.get(6, 5));
    assert_eq!(once.population(), 3);
    assert!(!(once == g));
    let twice = once.next_generation();
    assert!(twice == g);
}

#[test]
fn corner_cell_counts_no_outside_neighbors() {
    // a lone live cell at the corner sees only 3 candidate positions, none alive
    let mut g = Grid::new(10);
    g.set(0, 0, true);
    assert_eq!(g.count_neighbors(0, 0), 0);
    let next = g.next_generation();
    assert!(!next.get(0, 0));
    assert_eq!(next.population(), 0);
    // with every cell alive the corner still counts only its 3 in-range neighbors
    let mut full = Grid::new(10);
    for x in 0..10 {
        for y in 0..10 {
            full.set(x, y, true);
        }
    }
    assert_eq!(full.count_neighbors(0, 0), 3);
    assert_eq!(full.count_neighbors(0, 5), 5);
    assert_eq!(full.count_neighbors(5, 5), 8);
}

#[test]
fn population_counts_true_cells() {
    let all_dead = Grid::new(6);
    assert_eq!(all_dead.population(), 0);
    let mut all_alive = Grid::new(6);
    for x in 0..6 {
        for y in 0..6 {
            all_alive.set(x, y, true);
        }
    }
    assert_eq!(all_alive.population(), 36);
    let mut mixed = Grid::new(6);
    mixed.set(0, 0, true);
    mixed.set(3, 2, true);
    mixed.set(5, 5, true);
    assert_eq!(mixed.population(), 3);
    // setting a live cell dead again is reflected in the count
    mixed.set(3, 2, false);
    assert_eq!(mixed.population(), 2);
}

#[test]
fn census_matches_population() {
    let mut g = Grid::new(8);
    g.set(1, 1, true);
    g.set(2, 7, true);
    assert_eq!(g.census(), g.population());
    assert_eq!(g.census(), 2);
}

#[test]
fn get_and_set_round_trip() {
    let mut g = Grid::new(5);
    assert!(!g.get(2, 3));
    g.set(2, 3, true);
    assert!(g.get(2, 3));
    assert!(!g.get(3, 2));
    g.set(2, 3, false);
    assert!(!g.get(2, 3));
}
