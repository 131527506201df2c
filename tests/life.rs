use std::collections::BTreeSet;

use game_of_life::cell::neighbors;
use game_of_life::life::{cells_to_check, count_live_neighbors, should_live, step, Grid};
use game_of_life::patterns::{blinker, block, glider, gosper_glider_gun, r_pentomino, toad};

fn grid_of(cells: &[(i32, i32)]) -> Grid {
    cells.iter().copied().collect()
}

#[test]
fn neighbors_in_row_order() {
    assert_eq!(
        neighbors(0, 0),
        vec![(-1, -1), (0, -1), (1, -1), (-1, 0), (1, 0), (-1, 1), (0, 1), (1, 1)]
    );
    assert_eq!(neighbors(5, -3).len(), 8);
    assert!(!neighbors(5, -3).contains(&(5, -3)));
}

#[test]
fn counts_live_neighbors() {
    let g = block(0, 0);
    assert_eq!(count_live_neighbors(&g, &(0, 0)), 3);
    assert_eq!(count_live_neighbors(&g, &(2, 2)), 1);
    assert_eq!(count_live_neighbors(&g, &(5, 5)), 0);
    let full = grid_of(&[(-1, -1), (0, -1), (1, -1), (-1, 0), (0, 0), (1, 0), (-1, 1), (0, 1), (1, 1)]);
    assert_eq!(count_live_neighbors(&full, &(0, 0)), 8);
}

#[test]
fn live_cell_survives_with_two_or_three() {
    for n in 0..=8usize {
        let around = neighbors(0, 0);
        let mut g: Grid = around[..n].iter().copied().collect();
        g.insert((0, 0));
        let expected = n == 2 || n == 3;
        assert_eq!(should_live(&g, &(0, 0)), expected, "live cell with {} neighbors", n);
        assert_eq!(step(&g).contains(&(0, 0)), expected, "live cell with {} neighbors", n);
    }
}

#[test]
fn dead_cell_is_born_with_three() {
    for n in 0..=8usize {
        let around = neighbors(0, 0);
        let g: Grid = around[..n].iter().copied().collect();
        let expected = n == 3;
        assert_eq!(should_live(&g, &(0, 0)), expected, "dead cell with {} neighbors", n);
        assert_eq!(step(&g).contains(&(0, 0)), expected, "dead cell with {} neighbors", n);
    }
}

#[test]
fn candidates_of_one_cell() {
    let c = cells_to_check(&grid_of(&[(3, 4)]));
    assert_eq!(c.len(), 9);
    for x in 2..=4 {
        for y in 3..=5 {
            assert!(c.contains(&(x, y)));
        }
    }
    assert!(cells_to_check(&BTreeSet::new()).is_empty());
}

#[test]
fn step_leaves_input_alone() {
    let g = glider(0, 0);
    let before = g.clone();
    let next = step(&g);
    assert_eq!(g, before);
    assert_ne!(next, g);
}

#[test]
fn empty_and_lonely_die_out() {
    assert!(step(&BTreeSet::new()).is_empty());
    assert!(step(&grid_of(&[(0, 0)])).is_empty());
    assert!(step(&grid_of(&[(0, 0), (1, 0)])).is_empty());
}

#[test]
fn block_is_still() {
    for &(x, y) in &[(0, 0), (-7, 3), (100, -40)] {
        assert_eq!(step(&block(x, y)), block(x, y));
    }
}

#[test]
fn blinker_has_period_two() {
    let b = blinker(4, 4);
    let once = step(&b);
    assert_eq!(once, grid_of(&[(5, 3), (5, 4), (5, 5)]));
    assert_ne!(once, b);
    assert_eq!(step(&once), b);
}

#[test]
fn glider_moves_diagonally() {
    for &(x, y) in &[(0, 0), (5, 5), (-10, 20)] {
        let mut g = glider(x, y);
        for _ in 0..4 {
            g = step(&g);
        }
        assert_eq!(g, glider(x + 1, y + 1));
    }
}

#[test]
fn toad_has_period_two() {
    let t = toad(0, 0);
    let once = step(&t);
    assert_ne!(once, t);
    assert_eq!(step(&once), t);
}

#[test]
fn patterns_hold_their_offsets() {
    assert_eq!(glider(0, 0), grid_of(&[(1, 0), (2, 1), (0, 2), (1, 2), (2, 2)]));
    assert_eq!(blinker(1, 2), grid_of(&[(1, 2), (2, 2), (3, 2)]));
    assert_eq!(block(-1, -1), grid_of(&[(-1, -1), (0, -1), (-1, 0), (0, 0)]));
    assert_eq!(toad(0, 0), grid_of(&[(1, 0), (2, 0), (3, 0), (0, 1), (1, 1), (2, 1)]));
    assert_eq!(r_pentomino(10, 10), grid_of(&[(11, 10), (12, 10), (10, 11), (11, 11), (11, 12)]));
    let gun = gosper_glider_gun(0, 0);
    assert_eq!(gun.len(), 36);
    assert!(gun.contains(&(0, 4)) && gun.contains(&(35, 3)) && gun.contains(&(24, 0)));
    assert!(gun.contains(&(17, 5)) && !gun.contains(&(18, 5)));
}

#[test]
fn glider_gun_emits_a_glider_every_thirty_generations() {
    let gun = gosper_glider_gun(0, 0);
    let mut g = gun.clone();
    for _ in 0..30 {
        g = step(&g);
    }
    // the gun itself is back, and a new glider has left it
    assert!(gun.iter().all(|c| g.contains(c)));
    assert_eq!(g.len(), 36 + 5);
}
