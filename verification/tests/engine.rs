use life::cell::Cell;
use life::game::Game;
use rand::{RngExt, SeedableRng};

fn set_pattern(game: &mut Game, cells: &[(i32, i32)]) {
    for &(i, j) in cells {
        game.set_cell(i, j, true);
    }
}

fn states(game: &Game, height: i32, width: i32) -> Vec<bool> {
    let mut v = Vec::new();
    for i in 0..height {
        for j in 0..width {
            v.push(game.get_cell(i, j).get_state());
        }
    }
    v
}

#[test]
fn out_of_range_reads_dead() {
    let mut game = Game::new(3, 3, false);
    for i in 0..3 {
        for j in 0..3 {
            game.set_cell(i, j, true);
        }
    }
    for &(i, j) in &[
        (-1, 0),
        (0, -1),
        (3, 0),
        (0, 3),
        (5, 5),
        (i32::MIN, 0),
        (0, i32::MAX),
        (i32::MIN, i32::MAX),
    ] {
        let c = game.get_cell(i, j);
        assert!(!c.get_state());
        assert!(!c.watch_history(1));
    }
}

#[test]
fn advance_is_deterministic() {
    let pattern = [(1, 1), (1, 2), (1, 3), (3, 0), (4, 4), (2, 2)];
    let mut a = Game::new(6, 6, false);
    let mut b = Game::new(6, 6, false);
    set_pattern(&mut a, &pattern);
    set_pattern(&mut b, &pattern);
    let alive_a = a.next_generation();
    let alive_b = b.next_generation();
    assert_eq!(alive_a, alive_b);
    assert_eq!(states(&a, 6, 6), states(&b, 6, 6));
}

#[test]
fn three_neighbors_make_alive() {
    // an L of three cells grows into a 2x2 block: the corner cell has
    // exactly three live neighbors and is born, each live cell has two and
    // survives
    let mut game = Game::new(4, 4, false);
    set_pattern(&mut game, &[(0, 0), (0, 1), (1, 0)]);
    let alive = game.next_generation();
    assert_eq!(alive, 4);
    assert!(game.get_cell(0, 0).get_state());
    assert!(game.get_cell(0, 1).get_state());
    assert!(game.get_cell(1, 0).get_state());
    assert!(game.get_cell(1, 1).get_state());
}

#[test]
fn two_neighbors_keep_but_do_not_make() {
    // the middle of a row of three has two live neighbors and survives;
    // a far-away dead cell with two live neighbors stays dead
    let mut game = Game::new(5, 5, false);
    set_pattern(&mut game, &[(1, 1), (1, 2), (1, 3)]);
    game.next_generation();
    // the horizontal blinker turns vertical
    assert!(game.get_cell(1, 2).get_state());
    assert!(game.get_cell(0, 2).get_state());
    assert!(game.get_cell(2, 2).get_state());
    // (0, 1) had exactly two live neighbors but was dead: it stays dead
    assert!(!game.get_cell(0, 1).get_state());
    assert!(!game.get_cell(2, 1).get_state());
}

#[test]
fn few_or_many_neighbors_kill() {
    // a lone pair: each cell has one neighbor and dies
    let mut game = Game::new(4, 4, false);
    set_pattern(&mut game, &[(1, 1), (1, 2)]);
    let alive = game.next_generation();
    assert_eq!(alive, 0);

    // the center of a plus has four live neighbors and dies
    let mut plus = Game::new(5, 5, false);
    set_pattern(&mut plus, &[(1, 2), (2, 1), (2, 2), (2, 3), (3, 2)]);
    plus.next_generation();
    assert!(!plus.get_cell(2, 2).get_state());
}

#[test]
fn blinker_oscillates() {
    let mut game = Game::new(5, 5, false);
    set_pattern(&mut game, &[(1, 1), (1, 2), (1, 3)]);
    let first = states(&game, 5, 5);
    let alive = game.next_generation();
    assert_eq!(alive, 3);
    let alive = game.next_generation();
    assert_eq!(alive, 3);
    assert_eq!(states(&game, 5, 5), first);
}

#[test]
fn glider_translates_by_one_one_in_four_generations() {
    let mut game = Game::new(20, 20, false);
    let glider = [(5, 6), (6, 7), (7, 5), (7, 6), (7, 7)];
    set_pattern(&mut game, &glider);
    for _ in 0..4 {
        let alive = game.next_generation();
        assert_eq!(alive, 5);
    }
    let expected: Vec<(i32, i32)> = glider.iter().map(|&(i, j)| (i + 1, j + 1)).collect();
    for i in 0..20 {
        for j in 0..20 {
            let want = expected.contains(&(i, j));
            assert_eq!(game.get_cell(i, j).get_state(), want);
        }
    }
}

#[test]
fn fresh_cell_rewinds_to_dead() {
    let mut c = Cell::default();
    c.step_back();
    assert!(!c.get_state());
}

#[test]
fn step_back_undoes_one_change() {
    let mut c = Cell::default();
    c.change_state(true);
    c.step_back();
    assert!(!c.get_state());

    let mut d = Cell::default();
    d.change_state(true);
    d.change_state(false);
    d.step_back();
    assert!(d.get_state());
}

#[test]
fn board_rewind_restores_previous_generation() {
    let mut game = Game::new(6, 6, false);
    set_pattern(&mut game, &[(1, 1), (1, 2), (1, 3), (4, 4)]);
    let before = states(&game, 6, 6);
    game.next_generation();
    game.step_back();
    assert_eq!(states(&game, 6, 6), before);
}

#[test]
fn randomize_records_previous_state_in_history() {
    let mut game = Game::new(4, 4, false);
    for i in 0..4 {
        for j in 0..4 {
            game.set_cell(i, j, true);
        }
    }
    game.randomize();
    for i in 0..4 {
        for j in 0..4 {
            assert!(game.get_cell(i, j).watch_history(1));
        }
    }

    let mut fresh = Game::new(4, 4, false);
    fresh.randomize();
    for i in 0..4 {
        for j in 0..4 {
            assert!(!fresh.get_cell(i, j).watch_history(1));
        }
    }
}

#[test]
fn randomize_gives_roughly_half_alive() {
    let mut game = Game::new(50, 50, false);
    game.randomize();
    let alive = states(&game, 50, 50).iter().filter(|&&s| s).count();
    let fraction = alive as f64 / 2500.0;
    assert!(fraction > 0.4 && fraction < 0.6, "fraction {fraction}");
}

#[test]
fn seeded_uniform_source_gives_roughly_half_alive() {
    let mut rng = rand::rngs::StdRng::seed_from_u64(12345);
    let mut game = Game::new(50, 50, false);
    for i in 0..50 {
        for j in 0..50 {
            game.set_cell(i, j, rng.random::<bool>());
        }
    }
    let alive = states(&game, 50, 50).iter().filter(|&&s| s).count();
    let fraction = alive as f64 / 2500.0;
    assert!(fraction > 0.4 && fraction < 0.6, "fraction {fraction}");
}

#[test]
fn all_dead_board_stays_dead() {
    let mut game = Game::new(10, 10, false);
    for _ in 0..10 {
        let alive = game.next_generation();
        assert_eq!(alive, 0);
    }
    assert!(states(&game, 10, 10).iter().all(|&s| !s));
}

#[test]
fn block_is_a_still_life() {
    let mut game = Game::new(6, 6, false);
    let block = [(2, 2), (2, 3), (3, 2), (3, 3)];
    set_pattern(&mut game, &block);
    for _ in 0..5 {
        let alive = game.next_generation();
        assert_eq!(alive, 4);
    }
    for i in 0..6 {
        for j in 0..6 {
            let want = block.contains(&(i, j));
            assert_eq!(game.get_cell(i, j).get_state(), want);
        }
    }
}

#[test]
fn new_with_randomize_pushes_dead_history() {
    let game = Game::new(8, 8, true);
    for i in 0..8 {
        for j in 0..8 {
            assert!(!game.get_cell(i, j).watch_history(1));
        }
    }
}

#[test]
fn set_cell_out_of_range_is_a_no_op() {
    let mut game = Game::new(3, 3, false);
    game.set_cell(-1, 0, true);
    game.set_cell(0, -1, true);
    game.set_cell(3, 0, true);
    game.set_cell(0, 3, true);
    assert!(states(&game, 3, 3).iter().all(|&s| !s));
}
