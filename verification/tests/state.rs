//! Tests for the game state, the line dispatcher and the response encoder.

use hackbot::game::Game;
use hackbot::game::Player;
use hackbot::protocol::handle_line;
use hackbot::protocol::Basic;
use hackbot::protocol::ChooseCharacter;
use hackbot::protocol::Direction;
use hackbot::protocol::Move;
use hackbot::ProtocolError;

fn ok_line(game: &mut Game, ai: &mut Basic, line: &str) -> Option<String> {
    handle_line(game, ai, line).unwrap()
}

#[test]
fn settings_lines_fill_settings() {
    let mut game = Game::new();
    let mut ai = Basic;
    assert_eq!(ok_line(&mut game, &mut ai, "settings timebank 10000"), None);
    assert_eq!(ok_line(&mut game, &mut ai, "settings time_per_move 500"), None);
    assert_eq!(ok_line(&mut game, &mut ai, "settings your_bot player0"), None);
    assert_eq!(ok_line(&mut game, &mut ai, "settings your_botid 1"), None);
    assert_eq!(ok_line(&mut game, &mut ai, "settings field_width 20"), None);
    assert_eq!(ok_line(&mut game, &mut ai, "settings field_height 14"), None);
    assert_eq!(ok_line(&mut game, &mut ai, "settings max_rounds 200"), None);
    assert_eq!(game.settings.timebank, 10000);
    assert_eq!(game.settings.time_per_move, 500);
    assert_eq!(game.settings.my_bot, "player0");
    assert_eq!(game.settings.my_bot_id, 1);
    assert_eq!(game.settings.field_width, 20);
    assert_eq!(game.settings.field_height, 14);
    assert_eq!(game.settings.max_rounds, 200);
}

#[test]
fn player_names_and_stat_update() {
    let mut game = Game::new();
    let mut ai = Basic;
    assert_eq!(
        ok_line(&mut game, &mut ai, "settings player_names alice,bob"),
        None
    );
    assert_eq!(ok_line(&mut game, &mut ai, "update alice snippets 5"), None);
    assert_eq!(
        game.get_player("alice"),
        Some(Player {
            snippets: 5,
            bombs: 0
        })
    );
    assert_eq!(
        game.get_player("bob"),
        Some(Player {
            snippets: 0,
            bombs: 0
        })
    );
    assert_eq!(game.get_player("carol"), None);
}

#[test]
fn player_created_lazily_and_bombs_updated() {
    let mut game = Game::new();
    let mut ai = Basic;
    assert_eq!(ok_line(&mut game, &mut ai, "update carol bombs 2"), None);
    assert_eq!(
        game.get_player("carol"),
        Some(Player {
            snippets: 0,
            bombs: 2
        })
    );
}

#[test]
fn repeated_player_names_reset_stats() {
    let mut game = Game::new();
    let mut ai = Basic;
    ok_line(&mut game, &mut ai, "settings player_names alice,bob");
    ok_line(&mut game, &mut ai, "update alice snippets 5");
    // any later settings line re-creates default entries for listed names
    ok_line(&mut game, &mut ai, "settings player_names alice,bob");
    assert_eq!(
        game.get_player("alice"),
        Some(Player {
            snippets: 0,
            bombs: 0
        })
    );
}

#[test]
fn round_update() {
    let mut game = Game::new();
    let mut ai = Basic;
    assert_eq!(ok_line(&mut game, &mut ai, "update game round 42"), None);
    assert_eq!(game.round, 42);
}

#[test]
fn field_update_replaces_field() {
    let mut game = Game::new();
    let mut ai = Basic;
    ok_line(&mut game, &mut ai, "settings field_width 2");
    ok_line(&mut game, &mut ai, "settings field_height 1");
    assert_eq!(ok_line(&mut game, &mut ai, "update game field C,."), None);
    assert_eq!(game.field.cells.len(), 1);
    assert_eq!(game.field.snippets, vec![(0, 0)]);
}

#[test]
fn field_update_twice_is_identical() {
    let mut game = Game::new();
    let mut ai = Basic;
    ok_line(&mut game, &mut ai, "settings field_width 3");
    ok_line(&mut game, &mut ai, "settings field_height 2");
    ok_line(&mut game, &mut ai, "settings your_botid 1");
    let line = "update game field C,P0,.,P1,x,C";
    assert_eq!(ok_line(&mut game, &mut ai, line), None);
    let first_cells: Vec<Vec<Vec<_>>> = game
        .field
        .cells
        .iter()
        .map(|row| row.iter().map(|c| c.types.clone()).collect())
        .collect();
    let (first_snippets, first_me, first_others) = (
        game.field.snippets.clone(),
        game.field.me,
        game.field.others.clone(),
    );
    assert_eq!(ok_line(&mut game, &mut ai, line), None);
    let second_cells: Vec<Vec<Vec<_>>> = game
        .field
        .cells
        .iter()
        .map(|row| row.iter().map(|c| c.types.clone()).collect())
        .collect();
    assert_eq!(first_cells, second_cells);
    assert_eq!(first_snippets, game.field.snippets);
    assert_eq!(first_me, game.field.me);
    assert_eq!(first_others, game.field.others);
}

#[test]
fn malformed_lines_leave_state_unchanged() {
    let mut game = Game::new();
    let mut ai = Basic;
    ok_line(&mut game, &mut ai, "update game round 7");
    assert_eq!(
        handle_line(&mut game, &mut ai, "update game round banana"),
        Err(ProtocolError::MalformedToken)
    );
    assert_eq!(game.round, 7);
    ok_line(&mut game, &mut ai, "settings field_width 3");
    assert_eq!(
        handle_line(&mut game, &mut ai, "update game field .,."),
        Err(ProtocolError::DimensionMismatch)
    );
    assert_eq!(game.field.cells.len(), 0);
    assert_eq!(
        handle_line(&mut game, &mut ai, "settings timebank soon"),
        Err(ProtocolError::MalformedToken)
    );
    assert_eq!(game.settings.timebank, 0);
}

#[test]
fn unknown_lines_ignored() {
    let mut game = Game::new();
    let mut ai = Basic;
    assert_eq!(ok_line(&mut game, &mut ai, "quit now please"), None);
    assert_eq!(ok_line(&mut game, &mut ai, "settings timebank"), None);
    assert_eq!(ok_line(&mut game, &mut ai, "update game round"), None);
    assert_eq!(ok_line(&mut game, &mut ai, "action dance 1000"), None);
    assert_eq!(ok_line(&mut game, &mut ai, "settings colour red"), None);
    assert_eq!(ok_line(&mut game, &mut ai, "update game weather rain"), None);
    assert_eq!(ok_line(&mut game, &mut ai, ""), None);
}

#[test]
fn action_character_emits_one_word() {
    let mut game = Game::new();
    let mut ai = Basic;
    let out = ok_line(&mut game, &mut ai, "action character 1000").unwrap();
    assert!(out == "bixie" || out == "bixiette");
    assert_eq!(out, out.trim());
    assert_eq!(out, "bixie");
}

#[test]
fn action_move_emits_one_line() {
    let mut game = Game::new();
    let mut ai = Basic;
    let out = ok_line(&mut game, &mut ai, "action move 1000").unwrap();
    assert_eq!(out, "pass");
}

#[test]
fn action_with_bad_time_is_malformed() {
    let mut game = Game::new();
    let mut ai = Basic;
    assert_eq!(
        handle_line(&mut game, &mut ai, "action character soon"),
        Err(ProtocolError::MalformedToken)
    );
}

#[test]
fn move_encodings() {
    assert_eq!(
        Move::DropBomb {
            direction: Direction::Right,
            rounds: 3
        }
        .encode(),
        "right;drop_bomb 3"
    );
    assert_eq!(Move::Pass.encode(), "pass");
    assert_eq!(
        Move::Direction {
            direction: Direction::Up
        }
        .encode(),
        "up"
    );
    assert_eq!(
        Move::Direction {
            direction: Direction::Down
        }
        .encode(),
        "down"
    );
    assert_eq!(
        Move::Direction {
            direction: Direction::Left
        }
        .encode(),
        "left"
    );
}

#[test]
fn character_encodings() {
    assert_eq!(ChooseCharacter::Bixie.encode(), "bixie");
    assert_eq!(ChooseCharacter::Bixiette.encode(), "bixiette");
}
