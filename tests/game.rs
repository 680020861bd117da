use bomberman::coordinate::{Coordinate, Direction};
use bomberman::error::BombermanError;
use bomberman::game::{detonate_explosion_2, process_line, BombKind, DamageMap, Game};
use bomberman::item::Item;

fn board(rows: &[&str]) -> Game {
    let lines: Vec<String> = rows.iter().map(|s| s.to_string()).collect();
    Game::new(&lines).unwrap()
}

fn at(game: &Game, x: u32, y: u32, n: u32) -> Item {
    game.get(&Coordinate::new(x, y, n))
}

#[test]
fn bomb_kills_enemy_next_to_it() {
    let mut game = board(&[
        "_ _ _ _ _",
        "_ _ _ _ _",
        "_ _ B2 F1 _",
        "_ _ _ _ _",
        "_ _ _ _ _",
    ]);
    assert_eq!(game.denotate_bomb(2, 2), Ok(()));
    assert_eq!(at(&game, 2, 3, 5), Item::Empty);
    assert_eq!(at(&game, 2, 2, 5), Item::Empty);
    assert_eq!(
        game.board_text(),
        "_ _ _ _ _ \n_ _ _ _ _ \n_ _ _ _ _ \n_ _ _ _ _ \n_ _ _ _ _ \n"
    );
}

#[test]
fn rock_shields_enemy_from_normal_bomb_only() {
    let mut game = board(&[
        "_ _ _ _ _",
        "_ _ _ _ _",
        "_ _ B2 R F1",
        "_ _ _ _ _",
        "_ _ _ _ _",
    ]);
    assert_eq!(game.denotate_bomb(2, 2), Ok(()));
    assert_eq!(at(&game, 2, 4, 5), Item::Enemy(1));
    assert_eq!(at(&game, 2, 3, 5), Item::Rock);

    let mut game = board(&[
        "_ _ _ _ _",
        "_ _ _ _ _",
        "_ _ S2 R F1",
        "_ _ _ _ _",
        "_ _ _ _ _",
    ]);
    assert_eq!(game.denotate_bomb(2, 2), Ok(()));
    assert_eq!(at(&game, 2, 4, 5), Item::Empty);
    assert_eq!(at(&game, 2, 3, 5), Item::Rock);
}

#[test]
fn wall_stops_transfer_bomb() {
    let mut game = board(&["S3 W F1", "_ _ _", "_ _ _"]);
    assert_eq!(game.denotate_bomb(0, 0), Ok(()));
    assert_eq!(at(&game, 0, 2, 3), Item::Enemy(1));
    assert_eq!(at(&game, 0, 1, 3), Item::Wall);
}

#[test]
fn damage_counts_one_per_wave_and_four_at_the_bomb() {
    let game = board(&[
        "_ _ _ _ _",
        "_ _ _ _ _",
        "_ _ B1 _ _",
        "_ _ _ _ _",
        "_ _ _ _ _",
    ]);
    let bomb = Coordinate::new(2, 2, 5);
    let m = detonate_explosion_2(&game, &bomb, 1, BombKind::Normal);
    assert_eq!(m.damage_at(&bomb), 4);
    for (x, y) in [(1, 2), (3, 2), (2, 1), (2, 3)] {
        assert_eq!(m.damage_at(&Coordinate::new(x, y, 5)), 1);
        assert!(m.contains(&Coordinate::new(x, y, 5)));
    }
    for (x, y) in [(0, 2), (4, 2), (2, 0), (2, 4), (1, 1), (3, 3)] {
        assert_eq!(m.damage_at(&Coordinate::new(x, y, 5)), 0);
        assert!(!m.contains(&Coordinate::new(x, y, 5)));
    }
}

#[test]
fn rock_blocks_farther_cells_in_damage_map() {
    let game = board(&["B3 _ R _", "_ _ _ _", "_ _ _ _", "_ _ _ _"]);
    let bomb = Coordinate::new(0, 0, 4);
    let m = detonate_explosion_2(&game, &bomb, 3, BombKind::Normal);
    assert_eq!(m.damage_at(&Coordinate::new(0, 1, 4)), 1);
    assert_eq!(m.damage_at(&Coordinate::new(0, 2, 4)), 1);
    assert!(!m.contains(&Coordinate::new(0, 3, 4)));

    let m = detonate_explosion_2(&game, &bomb, 3, BombKind::Transfer);
    assert_eq!(m.damage_at(&Coordinate::new(0, 3, 4)), 1);
}

#[test]
fn deflection_turns_the_rightward_wave_up() {
    let game = board(&[
        "_ _ _ _ _",
        "_ _ _ _ _",
        "_ _ B3 DU _",
        "_ _ _ _ _",
        "_ _ _ _ _",
    ]);
    let bomb = Coordinate::new(2, 2, 5);
    let m = detonate_explosion_2(&game, &bomb, 3, BombKind::Normal);
    assert_eq!(m.damage_at(&Coordinate::new(2, 3, 5)), 1);
    assert_eq!(m.damage_at(&Coordinate::new(1, 3, 5)), 1);
    assert_eq!(m.damage_at(&Coordinate::new(0, 3, 5)), 1);
    assert!(!m.contains(&Coordinate::new(2, 4, 5)));
}

#[test]
fn deflection_survives_and_routes_blast() {
    let mut game = board(&["_ F1 _", "_ _ _", "B3 DU _"]);
    assert_eq!(game.denotate_bomb(2, 0), Ok(()));
    assert_eq!(at(&game, 0, 1, 3), Item::Empty);
    assert_eq!(at(&game, 2, 1, 3), Item::Deflection(Direction::Up));
}

#[test]
fn blast_stops_at_the_grid_edge() {
    let game = board(&["B10 _ _", "_ _ _", "_ _ _"]);
    let bomb = Coordinate::new(0, 0, 3);
    let m = detonate_explosion_2(&game, &bomb, 10, BombKind::Normal);
    assert_eq!(m.damage_at(&Coordinate::new(0, 2, 3)), 1);
    assert_eq!(m.damage_at(&Coordinate::new(2, 0, 3)), 1);
    assert_eq!(m.damage_at(&Coordinate::new(1, 1, 3)), 0);
    assert_eq!(m.damage_at(&Coordinate::new(0, 3, 3)), 0);
    assert_eq!(m.damage_at(&Coordinate::new(3, 0, 3)), 0);
    // Up and left leave the grid at once: the bomb's cell is hit by all four waves.
    assert_eq!(m.damage_at(&bomb), 4);
}

#[test]
fn enemy_life_drops_by_its_damage() {
    let mut game = board(&["F2 F3 F5", "B1 W R", "_ _ _"]);
    let mut m = DamageMap::new(3);
    for _ in 0..2 {
        m.hit(&Coordinate::new(0, 0, 3));
        m.hit(&Coordinate::new(0, 1, 3));
    }
    m.hit(&Coordinate::new(0, 2, 3));
    m.hit(&Coordinate::new(1, 0, 3));
    m.hit(&Coordinate::new(1, 1, 3));
    m.hit(&Coordinate::new(1, 2, 3));
    game.update_damage(&m);
    assert_eq!(at(&game, 0, 0, 3), Item::Empty);
    assert_eq!(at(&game, 0, 1, 3), Item::Enemy(1));
    assert_eq!(at(&game, 0, 2, 3), Item::Enemy(4));
    assert_eq!(at(&game, 1, 0, 3), Item::Empty);
    assert_eq!(at(&game, 1, 1, 3), Item::Wall);
    assert_eq!(at(&game, 1, 2, 3), Item::Rock);
}

#[test]
fn bombs_caught_in_a_blast_are_removed_without_going_off() {
    let mut game = board(&["B1 B1 _ F1", "_ _ _ _", "_ _ _ _", "_ _ _ _"]);
    assert_eq!(game.denotate_bomb(0, 0), Ok(()));
    assert_eq!(at(&game, 0, 1, 4), Item::Empty);
    // The second bomb did not go off, so the enemy past its reach survives.
    assert_eq!(at(&game, 0, 3, 4), Item::Enemy(1));
}

#[test]
fn range_zero_hits_only_the_bomb_cell() {
    let mut game = board(&["B0 F1", "F1 _"]);
    assert_eq!(game.denotate_bomb(0, 0), Ok(()));
    assert_eq!(at(&game, 0, 0, 2), Item::Empty);
    assert_eq!(at(&game, 0, 1, 2), Item::Enemy(1));
    assert_eq!(at(&game, 1, 0, 2), Item::Enemy(1));
}

#[test]
fn detonating_a_cell_without_a_bomb_fails() {
    let mut game = board(&["F1 _", "_ B1"]);
    assert_eq!(
        game.denotate_bomb(0, 0),
        Err(BombermanError::InvalidBombCoordinate)
    );
    assert_eq!(
        game.denotate_bomb(0, 1),
        Err(BombermanError::InvalidBombCoordinate)
    );
    assert_eq!(
        game.denotate_bomb(5, 5),
        Err(BombermanError::InvalidBombCoordinate)
    );
    assert_eq!(game.board_text(), "F1 _ \n_ B1 \n");
}

#[test]
fn board_must_be_square() {
    let lines: Vec<String> = vec!["_ _".to_string(), "_ _ _".to_string()];
    assert_eq!(Game::new(&lines).unwrap_err(), BombermanError::NonSquareBoardError);
    let lines: Vec<String> = vec!["_ _".to_string(), "_ _".to_string(), "_ _".to_string()];
    assert_eq!(Game::new(&lines).unwrap_err(), BombermanError::NonSquareBoardError);
    let lines: Vec<String> = vec![];
    assert_eq!(Game::new(&lines).unwrap_err(), BombermanError::NonSquareBoardError);
    // Squareness is checked before any token is read.
    let lines: Vec<String> = vec!["X _".to_string(), "_".to_string()];
    assert_eq!(Game::new(&lines).unwrap_err(), BombermanError::NonSquareBoardError);
}

#[test]
fn first_bad_token_is_reported() {
    let lines: Vec<String> = vec!["_ FX".to_string(), "X _".to_string()];
    assert_eq!(Game::new(&lines).unwrap_err(), BombermanError::InvalidEnemyFormat);
    let lines: Vec<String> = vec!["_ _".to_string(), "X BB".to_string()];
    assert_eq!(Game::new(&lines).unwrap_err(), BombermanError::InvalidItem);
}

#[test]
fn lines_may_carry_extra_whitespace() {
    let lines: Vec<String> = vec!["  F1\t_ \n".to_string(), "_   DR\r\n".to_string()];
    let game = Game::new(&lines).unwrap();
    assert_eq!(game.board_text(), "F1 _ \n_ DR \n");
}

#[test]
fn process_line_fills_one_row() {
    let lines: Vec<String> = vec!["_ _".to_string(), "_ _".to_string()];
    let mut game = Game::new(&lines).unwrap();
    assert_eq!(process_line("W B3", 1, &mut game), Ok(()));
    assert_eq!(game.board_text(), "_ _ \nW B3 \n");
    assert_eq!(
        process_line("W", 0, &mut game),
        Err(BombermanError::NonSquareBoardError)
    );
    assert_eq!(process_line("W Q", 0, &mut game), Err(BombermanError::InvalidItem));
    assert_eq!(game.board_text(), "_ _ \nW B3 \n");
}
