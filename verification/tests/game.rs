use pacmaze::common::{BlockType, Color, Cord, Difficulty, Dir, Level};
use pacmaze::ghosts::Ghoul;
use pacmaze::pacman::Pacman;
use pacmaze::Game;

#[test]
fn keycodes_map_to_directions() {
    assert!(Dir::from_keycode("ArrowRight") == Dir::Right);
    assert!(Dir::from_keycode("KeyD") == Dir::Right);
    assert!(Dir::from_keycode("ArrowLeft") == Dir::Left);
    assert!(Dir::from_keycode("KeyA") == Dir::Left);
    assert!(Dir::from_keycode("ArrowUp") == Dir::Up);
    assert!(Dir::from_keycode("KeyW") == Dir::Up);
    assert!(Dir::from_keycode("ArrowDown") == Dir::Down);
    assert!(Dir::from_keycode("KeyS") == Dir::Down);
    assert!(Dir::from_keycode("Space") == Dir::Still);
    assert!(Dir::from_keycode("") == Dir::Still);
}

#[test]
fn direction_geometry() {
    assert!(Dir::Up.to_tup() == (-1, 0));
    assert!(Dir::Down.to_tup() == (1, 0));
    assert!(Dir::Right.to_tup() == (0, 1));
    assert!(Dir::Left.to_tup() == (0, -1));
    assert!(Dir::Still.to_tup() == (0, 0));
    assert!(Dir::Up.get_opposite() == Dir::Down);
    assert!(Dir::Left.get_opposite() == Dir::Right);
    assert!(Dir::Still.get_opposite() == Dir::Still);
    assert!(Dir::Up.get_perpendicular_dirs() == [Dir::Right, Dir::Left]);
    assert!(Dir::Down.get_perpendicular_dirs() == [Dir::Right, Dir::Left]);
    assert!(Dir::Left.get_perpendicular_dirs() == [Dir::Down, Dir::Up]);
    assert!(Dir::Right.get_perpendicular_dirs() == [Dir::Down, Dir::Up]);
}

#[test]
fn cord_translation() {
    let c = Cord(5, 7);
    let moved = c.translate((-1, 2));
    assert!(moved.0 == 4 && moved.1 == 9);
}

#[test]
fn level_normalizes_requested_size() {
    let level = Level::new(12, 10);
    assert!(level.width() == 13);
    assert!(level.height() == 11);
    let level = Level::new(1, 1);
    assert!(level.width() == 13);
    assert!(level.height() == 11);
    let level = Level::new(20, 16);
    assert!(level.width() == 19);
    assert!(level.height() == 15);
}

#[test]
fn level_counts_its_dots() {
    let mut level = Level::new(13, 11);
    let mut edible = 0u64;
    for y in 0..11u32 {
        for x in 0..13u32 {
            let b = level.block(Cord(y, x));
            if b == BlockType::PacDot || b == BlockType::PowerPellet {
                edible += 1;
            }
        }
    }
    assert!(level.dot_count() == edible);
    assert!(edible >= 4); // at least the four corner pellets
    assert!(level.field().len() == 13 * 11);
    let before = level.dot_count();
    level.reduce_dot_count();
    assert!(level.dot_count() == before - 1);
}

#[test]
fn level_set_block_writes_one_cell() {
    let mut level = Level::new(13, 11);
    level.set_block(Cord(5, 5), BlockType::Empty);
    assert!(level.block(Cord(5, 5)) == BlockType::Empty);
    assert!(level.block(Cord(0, 0)) == BlockType::Wall);
}

#[test]
fn pacman_lives_and_revive() {
    let mut pac = Pacman::new(Cord(5, 5), 3);
    assert!(pac.lives() == 3);
    assert!(pac.revive());
    assert!(pac.lives() == 2);
    assert!(pac.revive());
    assert!(pac.lives() == 1);
    assert!(!pac.revive());
    assert!(pac.lives() == 0);
    assert!(!pac.revive());
    assert!(pac.lives() == 0);
}

#[test]
fn pacman_render_encoding() {
    let mut pac = Pacman::new(Cord(5, 6), 3);
    pac.set_dir_outside(Dir::Left);
    let fe = pac.parse_for_fe();
    assert!(fe == [5, 6, 5, 6, 99, 3]);
}

#[test]
fn ghoul_vulnerability_and_death() {
    let mut g = Ghoul::new(2, Cord(5, 6), Color::Cyan, Difficulty::Normal);
    assert!(!g.vulnerable());
    g.set_vulnerable();
    assert!(g.vulnerable());
    let fe = g.parse_for_fe();
    assert!(fe == [2, 5, 6, 5, 6, 3, 99, 1]);
    g.die();
    let fe = g.parse_for_fe();
    assert!(fe[1] == 5 && fe[2] == 6 && fe[7] == 1);
}

#[test]
fn game_starts_with_three_lives_and_zero_score() {
    let game = Game::new(13, 11, Difficulty::Normal);
    assert!(game.width() == 13);
    assert!(game.height() == 11);
    assert!(game.score() == 0);
    assert!(!game.game_over());
    assert!(game.lives() == 3);
    assert!(game.diff() == Difficulty::Normal);
    assert!(game.dot_count() >= 4);
    assert!(game.field().len() == 13 * 11);
    assert!(game.field_at(0, 0) == BlockType::Wall);
    assert!(game.field_at(11 / 2 - 1, 13 / 2) == BlockType::Gate);
}

#[test]
fn game_ghost_encoding_is_flat() {
    let game = Game::new(13, 11, Difficulty::Expert);
    let gs = game.ghosts();
    assert!(gs.len() == 32);
    // ids 0..3, colors red, pink, cyan, orange
    for i in 0..4usize {
        assert!(gs[8 * i] == i as u32);
        assert!(gs[8 * i + 5] == i as u32 + 1);
        assert!(gs[8 * i + 7] == 0);
    }
    let pac = game.pacman();
    assert!(pac[4] == 99);
    assert!(pac[5] == 3);
}

#[test]
fn game_ticks_without_ending_immediately() {
    let mut game = Game::new(15, 13, Difficulty::Normal);
    game.set_dir("ArrowLeft");
    for _ in 0..50 {
        if game.score() > u32::MAX - 850 {
            break;
        }
        game.tick();
        assert!(game.lives() <= 3);
        assert!(game.width() == 15 && game.height() == 13);
    }
}
