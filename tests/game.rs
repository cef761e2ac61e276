use snake::{Directions, Game, APPLE_COUNT};

fn top_row_apples() -> Vec<(u16, u16)> {
    vec![(0, 0), (1, 0), (2, 0), (3, 0), (4, 0)]
}

#[test]
fn step_moves_single_segment() {
    let mut game = Game::from_parts(5, 5, vec![(2, 2)], Directions::Right, top_row_apples()).unwrap();
    game.step(Directions::Keep);
    assert_eq!(game.segments(), vec![(3, 2)]);
    assert!(game.is_alive());
    assert_eq!(game.get_score(), 0);
    assert_eq!(game.apples(), top_row_apples());
}

#[test]
fn step_onto_apple_grows_and_scores() {
    let apples = vec![(4, 2), (0, 0), (1, 0), (2, 0), (3, 0)];
    let mut game = Game::from_parts(5, 5, vec![(3, 2), (2, 2)], Directions::Right, apples).unwrap();
    game.step(Directions::Keep);
    assert_eq!(game.get_score(), 1);
    assert_eq!(game.segments(), vec![(4, 2), (3, 2), (2, 2)]);
    assert!(game.is_alive());
    let now = game.apples();
    assert_eq!(now.len(), APPLE_COUNT);
    assert_eq!(&now[1..], &[(0, 0), (1, 0), (2, 0), (3, 0)]);
    let moved = now[0];
    assert!(moved.0 < 5 && moved.1 < 5);
    assert!(!game.segments().contains(&moved));
    assert!(!now[1..].contains(&moved));
}

#[test]
fn step_left_from_column_zero_dies() {
    let mut game = Game::from_parts(5, 5, vec![(0, 2), (1, 2)], Directions::Left, top_row_apples()).unwrap();
    game.step(Directions::Keep);
    assert_eq!(game.segments()[0], (u16::MAX, 2));
    assert!(game.segments()[0].0 >= 5);
    assert!(!game.is_alive());
    assert_eq!(game.get_score(), 0);
    assert_eq!(game.segments().len(), 2);
}

#[test]
fn step_up_from_row_zero_dies() {
    let apples = vec![(0, 4), (1, 4), (2, 4), (3, 4), (4, 4)];
    let mut game = Game::from_parts(5, 5, vec![(2, 0)], Directions::Right, apples).unwrap();
    game.step(Directions::Up);
    assert_eq!(game.segments(), vec![(2, u16::MAX)]);
    assert!(!game.is_alive());
}

#[test]
fn step_down_past_last_row_dies() {
    let mut game = Game::from_parts(5, 5, vec![(2, 4)], Directions::Down, top_row_apples()).unwrap();
    game.step(Directions::Keep);
    assert_eq!(game.segments(), vec![(2, 5)]);
    assert!(!game.is_alive());
}

#[test]
fn reversing_into_the_body_dies() {
    let mut game =
        Game::from_parts(5, 5, vec![(2, 2), (1, 2), (0, 2)], Directions::Right, top_row_apples()).unwrap();
    game.step(Directions::Left);
    assert_eq!(game.direction(), Directions::Left);
    assert_eq!(game.segments(), vec![(1, 2), (2, 2), (1, 2)]);
    assert!(!game.is_alive());
    assert_eq!(game.get_score(), 0);
}

#[test]
fn new_direction_is_taken() {
    let mut game = Game::from_parts(5, 5, vec![(2, 2)], Directions::Right, top_row_apples()).unwrap();
    game.step(Directions::Down);
    assert_eq!(game.direction(), Directions::Down);
    assert_eq!(game.segments(), vec![(2, 3)]);
    game.step(Directions::Keep);
    assert_eq!(game.segments(), vec![(2, 4)]);
    assert!(game.is_alive());
}

#[test]
fn eaten_apple_goes_to_the_only_free_cell() {
    let apples = vec![(2, 0), (1, 1), (2, 1), (0, 2), (1, 2)];
    let mut game =
        Game::from_parts(3, 3, vec![(1, 0), (0, 0), (0, 1)], Directions::Right, apples).unwrap();
    assert!(game.has_room());
    game.step(Directions::Keep);
    assert_eq!(game.get_score(), 1);
    assert_eq!(game.segments(), vec![(2, 0), (1, 0), (0, 0), (0, 1)]);
    assert_eq!(game.apples(), vec![(2, 2), (1, 1), (2, 1), (0, 2), (1, 2)]);
    assert!(!game.has_room());
}

#[test]
fn score_counts_each_apple() {
    let apples = vec![(3, 2), (4, 2), (0, 0), (1, 0), (2, 0)];
    let mut game = Game::from_parts(6, 5, vec![(2, 2)], Directions::Right, apples).unwrap();
    game.step(Directions::Keep);
    assert_eq!(game.get_score(), 1);
    assert_eq!(game.segments(), vec![(3, 2), (2, 2)]);
    assert_eq!(game.apples()[1], (4, 2));
    game.step(Directions::Keep);
    assert_eq!(game.get_score(), 2);
    assert_eq!(game.segments(), vec![(4, 2), (3, 2), (2, 2)]);
    assert!(game.is_alive());
}

#[test]
fn fresh_game_is_centred_with_apples_clear() {
    let game = Game::with_board_size(10, 7).unwrap();
    assert_eq!(game.board_size(), (10, 7));
    assert_eq!(game.segments(), vec![(5, 3)]);
    assert_eq!(game.direction(), Directions::Right);
    assert_eq!(game.get_score(), 0);
    assert!(game.is_alive());
    let apples = game.apples();
    assert_eq!(apples.len(), APPLE_COUNT);
    for (i, a) in apples.iter().enumerate() {
        assert!(a.0 < 10 && a.1 < 7);
        assert_ne!(*a, (5, 3));
        assert!(!apples[i + 1..].contains(a));
    }
}

#[test]
fn small_board_places_every_apple() {
    for _ in 0..50 {
        let game = Game::with_board_size(7, 1).unwrap();
        let apples = game.apples();
        assert_eq!(game.segments(), vec![(3, 0)]);
        for (i, a) in apples.iter().enumerate() {
            assert!(a.0 < 7 && a.1 == 0);
            assert_ne!(*a, (3, 0));
            assert!(!apples[i + 1..].contains(a));
        }
    }
}

#[test]
fn board_size_is_checked() {
    assert!(Game::with_board_size(0, 5).is_none());
    assert!(Game::with_board_size(5, 0).is_none());
    assert!(Game::with_board_size(2, 3).is_none());
    assert!(Game::with_board_size(6, 1).is_none());
    assert!(Game::with_board_size(7, 1).is_some());
    assert!(Game::with_board_size(u16::MAX, u16::MAX).is_some());
}

#[test]
fn restart_resets_state() {
    let mut game =
        Game::from_parts(5, 5, vec![(2, 2), (1, 2), (0, 2)], Directions::Right, top_row_apples()).unwrap();
    game.step(Directions::Left);
    assert!(!game.is_alive());
    game.new();
    assert!(game.is_alive());
    assert_eq!(game.get_score(), 0);
    assert_eq!(game.segments(), vec![(2, 2)]);
    assert_eq!(game.direction(), Directions::Right);
    assert_eq!(game.apples().len(), APPLE_COUNT);
}

#[test]
fn parts_are_checked() {
    assert!(Game::from_parts(5, 5, vec![], Directions::Right, top_row_apples()).is_none());
    assert!(Game::from_parts(5, 5, vec![(2, 2)], Directions::Keep, top_row_apples()).is_none());
    assert!(Game::from_parts(5, 5, vec![(5, 2)], Directions::Right, top_row_apples()).is_none());
    assert!(Game::from_parts(5, 5, vec![(0, 0)], Directions::Right, top_row_apples()).is_none());
    let repeated = vec![(0, 0), (0, 0), (2, 0), (3, 0), (4, 0)];
    assert!(Game::from_parts(5, 5, vec![(2, 2)], Directions::Right, repeated).is_none());
    let off_board = vec![(0, 0), (1, 0), (2, 0), (3, 0), (0, 5)];
    assert!(Game::from_parts(5, 5, vec![(2, 2)], Directions::Right, off_board).is_none());
    assert!(Game::from_parts(5, 5, vec![(2, 2)], Directions::Right, vec![(0, 0)]).is_none());
    assert!(Game::from_parts(0, 5, vec![(2, 2)], Directions::Right, top_row_apples()).is_none());
}

#[test]
fn has_room_tracks_free_cells() {
    let apples = vec![(2, 0), (1, 1), (2, 1), (0, 2), (1, 2)];
    let game = Game::from_parts(3, 3, vec![(1, 0), (0, 0), (0, 1)], Directions::Right, apples.clone()).unwrap();
    assert!(game.has_room());
    let full = Game::from_parts(3, 3, vec![(1, 0), (0, 0), (0, 1), (2, 2)], Directions::Right, apples).unwrap();
    assert!(!full.has_room());
}

#[test]
fn render_draws_border_apples_and_snake() {
    let apples = vec![(0, 0), (1, 0), (2, 0), (0, 2), (2, 2)];
    let game = Game::from_parts(3, 3, vec![(1, 1)], Directions::Right, apples).unwrap();
    let expected = String::from("XXXXX") + "XOOOX" + "X S X" + "XO OX" + "XXXXX";
    assert_eq!(game.render(), expected);
}

#[test]
fn render_has_bordered_size() {
    let game = Game::with_board_size(10, 4).unwrap();
    let frame: Vec<char> = game.render().chars().collect();
    assert_eq!(frame.len(), 12 * 6);
    assert!(frame[..12].iter().all(|c| *c == 'X'));
    assert!(frame[12 * 5..].iter().all(|c| *c == 'X'));
    assert_eq!(frame.iter().filter(|c| **c == 'O').count(), APPLE_COUNT);
    assert_eq!(frame.iter().filter(|c| **c == 'S').count(), 1);
    assert_eq!(frame[12 * 3 + 6], 'S');
}

#[test]
fn render_twice_is_identical() {
    let game = Game::with_board_size(8, 6).unwrap();
    let first = game.render();
    let second = game.render();
    assert_eq!(first, second);
    assert_eq!(game.segments(), vec![(4, 3)]);
}

#[test]
fn render_after_body_collision_keeps_frame_size() {
    let mut game =
        Game::from_parts(5, 5, vec![(2, 2), (1, 2), (0, 2)], Directions::Right, top_row_apples()).unwrap();
    game.step(Directions::Left);
    let frame: Vec<char> = game.render().chars().collect();
    assert_eq!(frame.len(), 49);
    assert_eq!(frame[7 * 3 + 2], 'S');
    assert_eq!(frame[7 * 3 + 3], 'S');
    assert_eq!(frame[7 * 3 + 1], ' ');
}
