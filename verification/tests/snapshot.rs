use life::game::Game;

#[test]
fn narrow_board_keeps_bare_title() {
    // a 3-wide board has an 8-character border field, narrower than the
    // title, so the top border holds the bare title
    let mut game = Game::new(3, 2, false);
    game.set_cell(0, 1, true);
    let expected = "\u{256d}Game of Life\u{256e}\n\
                    \u{2502}   \u{2588}\u{2588}   \u{2502}\n\
                    \u{2502}        \u{2502}\n\
                    \u{2570}\u{2500}\u{2500}\u{2500}\u{2500}\u{2500}\u{2500}\u{2500}\u{2500}\u{256f}\n";
    assert_eq!(game.to_string(), expected);
}

#[test]
fn wide_board_centers_title() {
    // a 6-wide board has a 14-character border field: one dash each side
    let game = Game::new(6, 1, false);
    let expected = "\u{256d}\u{2500}Game of Life\u{2500}\u{256e}\n\
                    \u{2502}              \u{2502}\n\
                    \u{2570}\u{2500}\u{2500}\u{2500}\u{2500}\u{2500}\u{2500}\u{2500}\u{2500}\u{2500}\u{2500}\u{2500}\u{2500}\u{2500}\u{2500}\u{256f}\n";
    assert_eq!(game.to_string(), expected);
}

#[test]
fn exact_width_title_needs_no_padding() {
    // a 5-wide board has a 12-character border field, exactly the title
    let game = Game::new(5, 1, false);
    let snapshot = game.to_string();
    let first_line: String = snapshot.lines().next().unwrap().to_string();
    assert_eq!(first_line, "\u{256d}Game of Life\u{256e}");
}

#[test]
fn snapshot_only_reads_the_board() {
    let mut game = Game::new(4, 4, false);
    game.set_cell(1, 1, true);
    let a = game.to_string();
    let b = game.to_string();
    assert_eq!(a, b);
    assert!(game.get_cell(1, 1).get_state());
}
