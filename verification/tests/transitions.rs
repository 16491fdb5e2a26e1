use game_of_life::grid::Grid;
use game_of_life::render::Transition;
use game_of_life::render::transition;

#[test]
fn classifies_all_four_pairs() {
    assert_eq!(transition(false, true), Transition::Born);
    assert_eq!(transition(true, true), Transition::StillAlive);
    assert_eq!(transition(true, false), Transition::Died);
    assert_eq!(transition(false, false), Transition::StillDead);
}

#[test]
fn classifies_a_blinker_step() {
    let mut g = Grid::new(9);
    g.set(5, 4, true);
    g.set(5, 5, true);
    g.set(5, 6, true);
    let next = g.next_generation();
    // the middle survives, the wings die, the cells above and below are born
    assert_eq!(transition(g.get(5, 5), next.get(5, 5)), Transition::StillAlive);
    assert_eq!(transition(g.get(5, 4), next.get(5, 4)), Transition::Died);
    assert_eq!(transition(g.get(5, 6), next.get(5, 6)), Transition::Died);
    assert_eq!(transition(g.get(4, 5), next.get(4, 5)), Transition::Born);
    assert_eq!(transition(g.get(6, 5), next.get(6, 5)), Transition::Born);
    assert_eq!(transition(g.get(0, 0), next.get(0, 0)), Transition::StillDead);
}
