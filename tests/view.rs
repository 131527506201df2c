use std::collections::BTreeSet;

use game_of_life::config::{
    initial_grid, is_unbounded, parse_delay, recognized_demo, select_demo, setup, Demo, Setup,
};
use game_of_life::game::{population, Game};
use game_of_life::life::Grid;
use game_of_life::patterns::{blinker, block, glider};
use game_of_life::render::display_grid;

#[test]
fn empty_viewport_is_all_dead() {
    let out = display_grid(4, 3, &BTreeSet::new());
    assert_eq!(out, "....\n....\n....\n");
    let lines: Vec<&str> = out.lines().collect();
    assert_eq!(lines.len(), 3);
    assert!(lines.iter().all(|l| l.len() == 4 && l.chars().all(|c| c == '.')));
}

#[test]
fn zero_sized_viewport_is_empty() {
    assert_eq!(display_grid(0, 0, &block(0, 0)), "");
    assert_eq!(display_grid(5, 0, &block(0, 0)), "");
    assert_eq!(display_grid(0, 2, &block(0, 0)), "\n\n");
    assert_eq!(display_grid(-3, -1, &block(0, 0)), "");
}

#[test]
fn live_cells_show_inside_the_viewport_only() {
    let g: Grid = [(0, 0), (2, 1), (-1, 0), (3, 0), (0, 2)].into_iter().collect();
    assert_eq!(display_grid(3, 2, &g), "#..\n..#\n");
}

#[test]
fn glider_renders() {
    assert_eq!(display_grid(3, 3, &glider(0, 0)), ".#.\n..#\n###\n");
}

#[test]
fn population_is_the_number_of_cells() {
    assert_eq!(population(&BTreeSet::new()), 0);
    assert_eq!(population(&glider(5, 5)), 5);
    let mut g = blinker(0, 0);
    g.insert((0, 0));
    assert_eq!(population(&g), 3);
}

#[test]
fn delay_parsing() {
    assert_eq!(parse_delay(""), 200);
    assert_eq!(parse_delay("30"), 50);
    assert_eq!(parse_delay("5000"), 1000);
    assert_eq!(parse_delay("abc"), 200);
    assert_eq!(parse_delay("300"), 300);
    assert_eq!(parse_delay("50"), 50);
    assert_eq!(parse_delay("1000"), 1000);
    assert_eq!(parse_delay("+120"), 120);
    assert_eq!(parse_delay("-5"), 200);
    assert_eq!(parse_delay("12a"), 200);
    assert_eq!(parse_delay("18446744073709551616"), 200);
    assert_eq!(parse_delay("18446744073709551615"), 1000);
}

#[test]
fn demo_selection() {
    assert_eq!(select_demo("1"), Demo::Glider);
    assert_eq!(select_demo("2"), Demo::Oscillators);
    assert_eq!(select_demo("3"), Demo::RPentomino);
    assert_eq!(select_demo("4"), Demo::GliderGun);
    assert_eq!(select_demo("5"), Demo::Mixed);
    assert_eq!(select_demo("6"), Demo::Glider);
    assert_eq!(select_demo(""), Demo::Glider);
    assert_eq!(select_demo("22"), Demo::Glider);
    assert_eq!(recognized_demo("4"), Some(Demo::GliderGun));
    assert_eq!(recognized_demo("1"), Some(Demo::Glider));
    assert_eq!(recognized_demo("x"), None);
    assert_eq!(recognized_demo("0"), None);
    assert!(is_unbounded("b"));
    assert!(!is_unbounded("a"));
    assert!(!is_unbounded("bb"));
    assert!(!is_unbounded(""));
}

#[test]
fn demo_setups() {
    assert_eq!(setup(Demo::Glider), Setup { width: 50, height: 25, generations: 100 });
    assert_eq!(setup(Demo::Oscillators), Setup { width: 40, height: 20, generations: 50 });
    assert_eq!(setup(Demo::RPentomino), Setup { width: 60, height: 30, generations: 200 });
    assert_eq!(setup(Demo::GliderGun), Setup { width: 80, height: 40, generations: 300 });
    assert_eq!(setup(Demo::Mixed), Setup { width: 50, height: 25, generations: 150 });
    assert_eq!(initial_grid(Demo::Glider), glider(5, 5));
    assert_eq!(initial_grid(Demo::Oscillators).len(), 9);
    assert_eq!(initial_grid(Demo::RPentomino).len(), 5);
    assert_eq!(initial_grid(Demo::GliderGun).len(), 36);
    let mixed = initial_grid(Demo::Mixed);
    assert_eq!(mixed.len(), 18);
    assert!(mixed.contains(&(41, 19)) && mixed.contains(&(27, 12)) && mixed.contains(&(15, 21)));
}

#[test]
fn bounded_run_of_zero_shows_nothing() {
    let game = Game::new(glider(0, 0), Some(0));
    assert!(!game.running());
    assert!(game.frame(10, 10).is_none());
}

#[test]
fn bounded_run_shows_exactly_its_generations() {
    let mut game = Game::new(blinker(1, 1), Some(3));
    let mut shown = Vec::new();
    while let Some(f) = game.frame(5, 3) {
        shown.push(f);
        assert!(game.can_advance());
        game.advance();
    }
    assert_eq!(shown.len(), 3);
    for (i, f) in shown.iter().enumerate() {
        assert_eq!(f.generation, i);
        assert_eq!(f.population, 3);
    }
    assert_eq!(shown[0].picture, ".....\n.###.\n.....\n");
    assert_eq!(shown[1].picture, "..#..\n..#..\n..#..\n");
    assert_eq!(shown[2].picture, shown[0].picture);
    assert_eq!(game.generation, 3);
}

#[test]
fn unbounded_run_keeps_going() {
    let mut game = Game::new(glider(0, 0), None);
    for i in 0..10usize {
        let f = game.frame(6, 6).expect("an unbounded run always shows a frame");
        assert_eq!(f.generation, i);
        assert_eq!(f.population, 5);
        game.advance();
    }
}

#[test]
fn advance_stops_at_the_edge() {
    let game = Game::new(block(i32::MAX - 1, 0), None);
    assert!(!game.can_advance());
    let game = Game::new(block(i32::MAX - 3, 0), None);
    assert!(game.can_advance());
}
