use snake_game::{
    food_candidate, key2dir, key2dir2, Cell, Dir, Header, KeyInput, Position, RawKey, SnakeGame,
    Status, Tint, HEIGHT, WIDTH,
};

/// A board template: a wall ring around an open field, or, with `pen`, walls
/// everywhere but a 5 x 5 field at rows and columns 1..=5; then the given
/// characters placed at (row, col).
fn template(pen: bool, marks: &[(usize, usize, char)]) -> String {
    let mut rows: Vec<Vec<char>> = Vec::new();
    for r in 0..HEIGHT {
        let mut line = Vec::new();
        for c in 0..WIDTH {
            let open = if pen {
                (1..=5).contains(&r) && (1..=5).contains(&c)
            } else {
                r > 0 && r < HEIGHT - 1 && c > 0 && c < WIDTH - 1
            };
            line.push(if open { ' ' } else { '#' });
        }
        rows.push(line);
    }
    for &(r, c, ch) in marks {
        rows[r][c] = ch;
    }
    rows.iter().map(|l| l.iter().collect::<String>()).collect::<Vec<_>>().join("\n")
}

fn game(pen: bool, marks: &[(usize, usize, char)]) -> SnakeGame {
    SnakeGame::from_template(&template(pen, marks)).expect("well-formed template")
}

fn pos(row: i16, col: i16) -> Position {
    Position::new(row, col)
}

fn count(g: &SnakeGame, cell: Cell) -> usize {
    let mut n = 0;
    let mut it = g.cell_pos_iter();
    while let Some(p) = it.next() {
        if g.cell(p) == cell {
            n += 1;
        }
    }
    n
}

fn food_cells(g: &SnakeGame) -> Vec<Position> {
    let mut v = Vec::new();
    let mut it = g.cell_pos_iter();
    while let Some(p) = it.next() {
        if g.cell(p) == Cell::Food {
            v.push(p);
        }
    }
    v
}

#[test]
fn eats_food_in_small_field() {
    let mut g = game(true, &[(2, 2, '>'), (2, 4, '@')]);
    assert!(!g.is_two_player());
    g.update();
    g.update();
    assert_eq!(g.head_position(1), pos(2, 4));
    assert_eq!(g.score(1), 1);
    assert_eq!(g.cell(pos(2, 3)), Cell::Body);
    assert_eq!(count(&g, Cell::Body), 1);
    let food = food_cells(&g);
    assert_eq!(food.len(), 1);
    assert_ne!(food[0], pos(2, 4));
    assert_ne!(food[0], pos(2, 3));
    assert_eq!(g.status(), Status::Normal);
}

#[test]
fn player_two_hits_fresh_trail() {
    let mut g = game(false, &[(5, 4, '>'), (5, 5, '@'), (7, 5, '^')]);
    assert!(g.is_two_player());
    g.update();
    assert_eq!(g.status(), Status::Normal);
    assert_eq!(g.score(1), 1);
    assert_eq!(g.head_position(2), pos(6, 5));
    g.update();
    assert_eq!(g.status(), Status::Over1);
    assert_eq!(g.head_position(1), pos(5, 6));
    assert_eq!(g.score(1), 1);
    assert_eq!(g.cell(pos(5, 5)), Cell::Body);
    assert_eq!(g.cell(pos(5, 4)), Cell::Empty);
    assert_eq!(g.head_position(2), pos(6, 5));
    assert_eq!(g.header(), Header::Winner(1));
    assert_eq!(g.icon_color(pos(6, 5)), ('X', Tint::Magenta));
}

#[test]
fn player_two_hits_growing_trail() {
    let mut g = game(false, &[(5, 5, '>'), (5, 6, '@'), (6, 5, '^')]);
    g.update();
    assert_eq!(g.cell(pos(5, 5)), Cell::Body);
    assert_eq!(g.status(), Status::Over1);
    assert_eq!(g.head_position(1), pos(5, 6));
    assert_eq!(g.score(1), 1);
}

#[test]
fn reverse_key_is_ignored() {
    let mut g = game(false, &[(5, 5, '>')]);
    g.key(KeyInput::Unicode('a'));
    g.update();
    assert_eq!(g.head_dir(1), Dir::E);
    assert_eq!(g.head_position(1), pos(5, 6));
    g.update();
    assert_eq!(g.head_dir(1), Dir::E);
    assert_eq!(g.head_position(1), pos(5, 7));
}

#[test]
fn turn_key_is_taken_once() {
    let mut g = game(false, &[(5, 5, '>')]);
    g.key(KeyInput::Unicode('s'));
    g.key(KeyInput::Unicode('w'));
    g.update();
    assert_eq!(g.head_dir(1), Dir::N);
    assert_eq!(g.head_position(1), pos(4, 5));
    g.key(KeyInput::Unicode('s'));
    g.update();
    assert_eq!(g.head_dir(1), Dir::N);
    assert_eq!(g.head_position(1), pos(3, 5));
}

#[test]
fn waiting_tick_changes_nothing() {
    let mut g = game(false, &[(5, 5, '>')]);
    assert!(!g.tick());
    assert_eq!(g.head_position(1), pos(5, 5));
    assert!(g.tick());
    assert_eq!(g.head_position(1), pos(5, 6));
    assert!(!g.tick());
    assert_eq!(g.head_position(1), pos(5, 6));
}

#[test]
fn countdown_counts_down() {
    let mut g = game(false, &[(5, 5, '>')]);
    assert!(!g.countdown_complete());
    assert!(g.countdown_complete());
    assert!(!g.countdown_complete());
}

#[test]
fn wall_ends_one_player_round() {
    let mut g = game(false, &[(21, 5, 'v')]);
    g.update();
    assert_eq!(g.status(), Status::Over);
    assert_eq!(g.head_position(1), pos(21, 5));
    g.update();
    g.key(KeyInput::Unicode('d'));
    g.update();
    assert_eq!(g.status(), Status::Over);
    assert_eq!(g.head_position(1), pos(21, 5));
    assert_eq!(g.icon_color(pos(21, 5)), ('X', Tint::Blue));
    assert_eq!(g.header(), Header::Score(0));
}

#[test]
fn own_trail_ends_round() {
    let mut g = game(false, &[(5, 5, '>'), (5, 6, '@'), (5, 7, '@'), (5, 8, '@')]);
    g.update();
    g.update();
    g.update();
    assert_eq!(g.score(1), 3);
    g.key(KeyInput::Unicode('s'));
    g.update();
    g.key(KeyInput::Unicode('a'));
    g.update();
    assert_eq!(g.head_position(1), pos(6, 7));
    g.key(KeyInput::Unicode('w'));
    g.update();
    assert_eq!(g.status(), Status::Over);
    assert_eq!(g.head_position(1), pos(6, 7));
}

#[test]
fn player_one_obstacle_gives_over2() {
    let mut g = game(false, &[(21, 5, 'v'), (10, 10, '<')]);
    g.update();
    assert_eq!(g.status(), Status::Over2);
    assert_eq!(g.head_position(2), pos(10, 10));
    assert_eq!(g.header(), Header::Winner(2));
}

#[test]
fn both_blocked_in_one_step_gives_over1() {
    let mut g = game(false, &[(1, 5, '^'), (21, 10, 'v')]);
    g.update();
    assert_eq!(g.status(), Status::Over1);
}

#[test]
fn crashed_head_does_not_block_after_round_ends() {
    let mut g = game(false, &[(21, 5, 'v'), (21, 6, '<')]);
    g.update();
    assert_eq!(g.status(), Status::Over2);
    assert_eq!(g.head_position(1), pos(21, 5));
    assert_eq!(g.head_position(2), pos(21, 6));
    assert_eq!(g.cell(pos(21, 5)), Cell::Empty);
}

#[test]
fn head_cell_of_other_player_blocks() {
    let mut g = game(false, &[(5, 5, '>'), (5, 6, '^')]);
    g.update();
    assert_eq!(g.status(), Status::Over2);
    assert_eq!(g.head_position(1), pos(5, 5));
    assert_eq!(g.head_position(2), pos(5, 6));
}

#[test]
fn face_to_face_gives_over2() {
    let mut g = game(false, &[(5, 5, '>'), (5, 6, '<')]);
    g.update();
    assert_eq!(g.status(), Status::Over2);
    assert_eq!(g.head_position(1), pos(5, 5));
    assert_eq!(g.head_position(2), pos(5, 6));
}

#[test]
fn trail_follows_the_head() {
    let mut g = game(false, &[(5, 5, '>'), (5, 6, '@')]);
    g.update();
    assert_eq!(g.score(1), 1);
    for _ in 0..5 {
        g.update();
        assert_eq!(count(&g, Cell::Body), g.score(1));
    }
    assert_eq!(g.head_position(1), pos(5, 11));
    assert_eq!(g.cell(pos(5, 10)), Cell::Body);
    assert_eq!(g.cell(pos(5, 9)), Cell::Empty);
}

#[test]
fn food_count_stays_one_after_eating() {
    let mut g = game(false, &[(5, 5, '>'), (5, 6, '@')]);
    assert_eq!(food_cells(&g).len(), 1);
    g.update();
    let food = food_cells(&g);
    assert_eq!(food.len(), 1);
    assert_ne!(food[0], pos(5, 6));
    assert_eq!(g.cell(pos(5, 6)), Cell::Empty);
}

#[test]
fn edge_of_board_stops_without_ending() {
    let mut g = game(false, &[(5, 5, '>')]);
    let mut t = template(false, &[(5, 5, '>')]).into_bytes();
    t[5 * 81] = b' ';
    t[5 * 81 + 79] = b' ';
    let mut g2 = SnakeGame::from_template(&String::from_utf8(t).unwrap()).unwrap();
    for _ in 0..80 {
        g2.update();
    }
    assert_eq!(g2.status(), Status::Normal);
    assert_eq!(g2.head_position(1), pos(5, 79));
    g.update();
    assert_eq!(g.status(), Status::Normal);
}

#[test]
fn new_game_waits_for_mode() {
    let mut g = SnakeGame::new();
    assert_eq!(g.status(), Status::Start);
    assert_eq!(g.header(), Header::Welcome);
    g.update();
    assert_eq!(g.head_position(1), pos(3, 6));
    g.key(KeyInput::Unicode('x'));
    assert_eq!(g.status(), Status::Start);
    g.key(KeyInput::Unicode('1'));
    assert_eq!(g.status(), Status::Normal);
    assert!(!g.is_two_player());
    assert_eq!(g.header(), Header::Score(0));
    assert_eq!(g.cell(pos(19, 73)), Cell::Food);
    g.key(KeyInput::Unicode('2'));
    assert!(!g.is_two_player());
}

#[test]
fn default_two_player_layout() {
    let mut g = SnakeGame::new();
    g.key(KeyInput::RawKey(RawKey::Key2));
    assert_eq!(g.status(), Status::Normal);
    assert!(g.is_two_player());
    assert_eq!(g.head_position(1), pos(3, 6));
    assert_eq!(g.head_dir(1), Dir::S);
    assert_eq!(g.head_position(2), pos(19, 6));
    assert_eq!(g.head_dir(2), Dir::N);
    assert_eq!(g.cell(pos(11, 73)), Cell::Food);
    assert_eq!(g.cell(pos(0, 0)), Cell::Wall);
    assert_eq!(g.cell(pos(22, 79)), Cell::Wall);
    assert_eq!(g.cell(pos(10, 10)), Cell::Empty);
    assert_eq!(count(&g, Cell::Wall), 2 * 80 + 2 * 21);
    assert_eq!(g.header(), Header::Sizes(0, 0));
    assert_eq!(g.icon_color(pos(3, 6)), ('v', Tint::Blue));
    assert_eq!(g.icon_color(pos(19, 6)), ('^', Tint::Magenta));
    assert_eq!(g.icon_color(pos(11, 73)), ('@', Tint::Red));
    assert_eq!(g.icon_color(pos(0, 3)), ('#', Tint::Brown));
    assert_eq!(g.icon_color(pos(4, 4)), (' ', Tint::Black));
}

#[test]
fn arrows_steer_player_two() {
    let mut g = SnakeGame::new();
    g.key(KeyInput::Unicode('2'));
    g.key(KeyInput::RawKey(RawKey::ArrowRight));
    g.key(KeyInput::Unicode('d'));
    g.update();
    assert_eq!(g.head_position(1), pos(3, 7));
    assert_eq!(g.head_position(2), pos(19, 7));
    assert_eq!(g.icon_color(pos(19, 6)), (' ', Tint::Black));
    assert_eq!(g.cell(pos(19, 6)), Cell::Empty);
    assert_eq!(g.icon_color(pos(19, 7)), ('>', Tint::Magenta));
}

#[test]
fn malformed_templates_are_refused() {
    assert!(SnakeGame::from_template("").is_none());
    assert!(SnakeGame::from_template(&template(false, &[])).is_none());
    assert!(SnakeGame::from_template(&template(false, &[(3, 3, 'x'), (4, 4, '>')])).is_none());
    assert!(SnakeGame::from_template(&template(false, &[(3, 3, '>'), (4, 4, '>'), (5, 5, '<')]))
        .is_none());
    assert!(SnakeGame::from_template(&template(false, &[(3, 3, '^')])).is_none());
    assert!(SnakeGame::from_template(&template(false, &[(3, 3, 'v'), (4, 4, '<'), (5, 5, '^')]))
        .is_none());
    let g = game(false, &[(3, 3, '^'), (9, 9, 'v')]);
    assert_eq!(g.head_position(1), pos(9, 9));
    assert_eq!(g.head_position(2), pos(3, 3));
    let t = template(false, &[(3, 3, '>')]);
    assert!(SnakeGame::from_template(&format!("{}\n", t)).is_none());
    let mut bytes = t.into_bytes();
    bytes[80] = b'#';
    bytes[81] = b'\n';
    assert!(SnakeGame::from_template(&String::from_utf8(bytes).unwrap()).is_none());
}

#[test]
fn template_glyphs_pick_players() {
    let g = game(false, &[(7, 30, '<'), (3, 40, 'v')]);
    assert!(g.is_two_player());
    assert_eq!(g.head_position(1), pos(3, 40));
    assert_eq!(g.head_dir(1), Dir::S);
    assert_eq!(g.head_position(2), pos(7, 30));
    assert_eq!(g.head_dir(2), Dir::W);
    assert_eq!(g.cell(pos(3, 40)), Cell::Empty);
}

#[test]
fn food_candidate_scales_draws() {
    assert_eq!(food_candidate(0, 0), pos(1, 1));
    assert_eq!(food_candidate(u32::MAX, u32::MAX), pos(21, 78));
    assert_eq!(food_candidate(1 << 31, 1 << 31), pos(11, 40));
}

#[test]
fn key_maps() {
    assert_eq!(key2dir(KeyInput::Unicode('w')), Some(Dir::N));
    assert_eq!(key2dir(KeyInput::Unicode('a')), Some(Dir::W));
    assert_eq!(key2dir(KeyInput::Unicode('s')), Some(Dir::S));
    assert_eq!(key2dir(KeyInput::Unicode('d')), Some(Dir::E));
    assert_eq!(key2dir(KeyInput::RawKey(RawKey::ArrowUp)), None);
    assert_eq!(key2dir2(KeyInput::RawKey(RawKey::ArrowUp)), Some(Dir::N));
    assert_eq!(key2dir2(KeyInput::RawKey(RawKey::ArrowDown)), Some(Dir::S));
    assert_eq!(key2dir2(KeyInput::RawKey(RawKey::ArrowLeft)), Some(Dir::W));
    assert_eq!(key2dir2(KeyInput::RawKey(RawKey::ArrowRight)), Some(Dir::E));
    assert_eq!(key2dir2(KeyInput::Unicode('w')), None);
}

#[test]
fn directions() {
    assert_eq!(Dir::N.reverse(), Dir::S);
    assert_eq!(Dir::E.reverse(), Dir::W);
    assert_eq!(Dir::W.icon(), '<');
    assert_eq!(Dir::from_icon('v'), Some(Dir::S));
    assert_eq!(Dir::from_icon('#'), None);
}

#[test]
fn positions() {
    let p = pos(0, 79);
    assert!(p.is_legal());
    assert!(!pos(0, 80).is_legal());
    assert!(!pos(-1, 3).is_legal());
    assert!(!pos(23, 3).is_legal());
    assert_eq!(p.row_col(), (0, 79));
    assert_eq!(p.neighbor(Dir::N), pos(-1, 79));
    assert_eq!(p.neighbor(Dir::E), pos(0, 80));
    assert_eq!(pos(4, 4).neighbor(Dir::S), pos(5, 4));
    assert_eq!(pos(4, 4).neighbor(Dir::W), pos(4, 3));
}

#[test]
fn iterator_walks_rows() {
    let g = SnakeGame::new();
    let mut it = g.cell_pos_iter();
    assert_eq!(it.next(), Some(pos(0, 0)));
    assert_eq!(it.next(), Some(pos(0, 1)));
    let mut n = 2;
    let mut last = pos(0, 1);
    while let Some(p) = it.next() {
        last = p;
        n += 1;
    }
    assert_eq!(n, WIDTH * HEIGHT);
    assert_eq!(last, pos(22, 79));
    assert_eq!(it.next(), None);
}
