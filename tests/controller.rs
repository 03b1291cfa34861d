use othello_rs::{GameController, GameResult, GameState, MainMenuView, Message, OthelloBoard};

/// Sends every queued message of `from` to `to` through the wire encoding.
fn deliver(from: &mut GameController, to: &mut GameController) -> usize {
    let out = from.take_outgoing();
    let n = out.len();
    for m in out {
        let frame = m.to_bytes();
        to.handle_remote_message(Message::from_bytes(&frame).unwrap());
    }
    n
}

fn connected_pair() -> (GameController, GameController) {
    let mut host = GameController::new();
    let mut guest = GameController::new();
    host.connect_to(true);
    guest.connect_to(false);
    (host, guest)
}

fn board_is_empty(c: &GameController) -> bool {
    (0..8).all(|r| (0..8).all(|f| c.get_piece_at(r, f).is_none()))
}

#[test]
fn new_controller_has_no_connection() {
    let mut c = GameController::new();
    assert_eq!(c.state, GameState::NoConnection);
    assert!(c.player_turn);
    assert!(!c.opponent_passed);
    assert!(board_is_empty(&c));
    assert!(c.get_chat_messages().is_empty());
    assert!(c.take_outgoing().is_empty());
}

#[test]
fn connecting_starts_a_game_and_the_host_moves_first() {
    let (host, guest) = connected_pair();
    assert_eq!(host.state, GameState::Playing);
    assert_eq!(guest.state, GameState::Playing);
    assert!(host.is_host && host.player_turn);
    assert!(!guest.is_host && !guest.player_turn);
    assert_eq!(host.board.count_pieces(), (2, 2));
    assert_eq!(host.get_piece_at(3, 3), Some(1));
}

#[test]
fn host_move_is_applied_on_both_sides() {
    let (mut host, mut guest) = connected_pair();
    host.try_set_piece_on_board(2, 3, false);
    assert_eq!(host.get_piece_at(2, 3), Some(0));
    assert_eq!(host.get_piece_at(3, 3), Some(0));
    assert!(!host.player_turn);
    assert_eq!(deliver(&mut host, &mut guest), 1);
    assert_eq!(guest.get_piece_at(2, 3), Some(0));
    assert_eq!(guest.get_piece_at(3, 3), Some(0));
    assert!(guest.player_turn);
    assert_eq!(guest.board.count_pieces(), (4, 1));
}

#[test]
fn move_out_of_turn_is_refused_with_an_error_line() {
    let (_, mut guest) = connected_pair();
    guest.try_set_piece_on_board(2, 3, false);
    assert_eq!(guest.get_piece_at(2, 3), None);
    assert_eq!(guest.get_chat_messages(), &vec!["ERROR: Wait for your opponent's turn!".to_string()]);
    assert!(guest.take_outgoing().is_empty());
    assert!(!guest.player_turn);
}

#[test]
fn refused_placement_logs_the_board_error() {
    let (mut host, _) = connected_pair();
    host.try_set_piece_on_board(3, 3, false);
    assert_eq!(
        host.get_chat_messages(),
        &vec!["ERROR: There already is a piece at the given position. Pieces must be placed on empty squares.".to_string()]
    );
    host.try_set_piece_on_board(9, 0, false);
    assert!(host.get_chat_messages()[1].starts_with("ERROR: Invalid piece position given."));
    assert!(host.player_turn);
    assert!(host.take_outgoing().is_empty());
}

#[test]
fn turn_alternates_over_accepted_moves_and_passes() {
    let (mut host, mut guest) = connected_pair();
    let mut expected_host_turn = true;
    // host places, guest places, host passes, guest places, host places
    host.try_set_piece_on_board(2, 3, false);
    expected_host_turn = !expected_host_turn;
    deliver(&mut host, &mut guest);
    assert_eq!(host.player_turn, expected_host_turn);
    assert_eq!(guest.player_turn, !expected_host_turn);

    guest.try_set_piece_on_board(2, 2, false);
    deliver(&mut guest, &mut host);
    expected_host_turn = !expected_host_turn;
    assert_eq!(host.player_turn, expected_host_turn);
    assert_eq!(guest.player_turn, !expected_host_turn);

    host.try_pass_turn();
    deliver(&mut host, &mut guest);
    expected_host_turn = !expected_host_turn;
    assert_eq!(host.player_turn, expected_host_turn);
    assert_eq!(guest.player_turn, !expected_host_turn);

    guest.try_set_piece_on_board(4, 5, false);
    deliver(&mut guest, &mut host);
    expected_host_turn = !expected_host_turn;
    assert_eq!(host.player_turn, expected_host_turn);
    assert!(!host.opponent_passed);

    host.try_set_piece_on_board(5, 5, false);
    deliver(&mut host, &mut guest);
    expected_host_turn = !expected_host_turn;
    assert_eq!(host.player_turn, expected_host_turn);
    assert_eq!(guest.player_turn, !expected_host_turn);
    for r in 0..8 {
        for f in 0..8 {
            assert_eq!(host.get_piece_at(r, f), guest.get_piece_at(r, f));
        }
    }
}

#[test]
fn two_passes_in_a_row_end_the_game_in_a_tie() {
    let (mut host, mut guest) = connected_pair();
    host.try_pass_turn();
    assert!(!host.player_turn);
    deliver(&mut host, &mut guest);
    assert!(guest.player_turn && guest.opponent_passed);
    assert_eq!(guest.get_chat_messages(), &vec!["WARNING: Opponent forfeited their turn.".to_string()]);
    guest.try_pass_turn();
    assert_eq!(guest.state, GameState::GameEnded(GameResult::Tie));
    deliver(&mut guest, &mut host);
    assert_eq!(host.state, GameState::GameEnded(GameResult::Tie));
}

#[test]
fn two_passes_in_a_row_end_the_game_by_piece_count() {
    let (mut host, mut guest) = connected_pair();
    host.try_set_piece_on_board(2, 3, false);
    deliver(&mut host, &mut guest);
    guest.try_pass_turn();
    deliver(&mut guest, &mut host);
    assert!(host.player_turn && host.opponent_passed);
    host.try_pass_turn();
    assert_eq!(host.state, GameState::GameEnded(GameResult::PlayerWon));
    deliver(&mut host, &mut guest);
    assert_eq!(guest.state, GameState::GameEnded(GameResult::PlayerLost));
}

#[test]
fn pass_out_of_turn_is_refused() {
    let (_, mut guest) = connected_pair();
    guest.try_pass_turn();
    assert_eq!(guest.get_chat_messages(), &vec!["ERROR: Can't pass if it is not your turn!".to_string()]);
    assert!(guest.take_outgoing().is_empty());
    assert_eq!(guest.state, GameState::Playing);
}

#[test]
fn surrender_loses_here_and_wins_at_the_peer() {
    let (mut host, mut guest) = connected_pair();
    host.surrender();
    assert_eq!(host.state, GameState::GameEnded(GameResult::PlayerLost));
    deliver(&mut host, &mut guest);
    assert_eq!(guest.state, GameState::GameEnded(GameResult::PlayerWon));

    let (mut host, mut guest) = connected_pair();
    guest.surrender();
    assert_eq!(guest.state, GameState::GameEnded(GameResult::PlayerLost));
    deliver(&mut guest, &mut host);
    assert_eq!(host.state, GameState::GameEnded(GameResult::PlayerWon));
}

#[test]
fn restart_after_any_end_gives_a_fresh_controller() {
    let ends = [GameResult::PlayerWon, GameResult::PlayerLost, GameResult::Tie];
    for end in ends {
        let (mut host, _) = connected_pair();
        host.try_set_piece_on_board(2, 3, false);
        host.push_chat_message("gg".to_string(), false);
        host.state = GameState::GameEnded(end);
        host.restart_game();
        assert_eq!(host.state, GameState::NoConnection);
        assert!(board_is_empty(&host));
        assert!(host.get_chat_messages().is_empty());
        assert!(host.take_outgoing().is_empty());
        host.restart_game();
        assert_eq!(host.state, GameState::NoConnection);
        assert!(board_is_empty(&host));
    }
}

#[test]
fn chat_lines_are_prefixed_and_local_ones_sent() {
    let (mut host, mut guest) = connected_pair();
    host.push_chat_message("hello".to_string(), false);
    assert_eq!(host.get_chat_messages(), &vec!["player: hello".to_string()]);
    deliver(&mut host, &mut guest);
    assert_eq!(guest.get_chat_messages(), &vec!["opponent: hello".to_string()]);
    guest.push_warning_to_chat("careful");
    assert_eq!(guest.get_chat_messages()[1], "WARNING: careful");
}

#[test]
fn undo_takes_back_the_move_on_both_sides() {
    let (mut host, mut guest) = connected_pair();
    host.try_set_piece_on_board(2, 3, false);
    deliver(&mut host, &mut guest);
    host.undo_last_move();
    assert_eq!(host.get_piece_at(2, 3), None);
    assert_eq!(host.get_piece_at(3, 3), Some(1));
    assert!(host.player_turn);
    deliver(&mut host, &mut guest);
    assert_eq!(guest.get_piece_at(2, 3), None);
    assert_eq!(guest.get_piece_at(3, 3), Some(1));
    assert!(!guest.player_turn);
    assert_eq!(
        guest.get_chat_messages(),
        &vec!["WARNING: The last move was undone by the opponent.".to_string()]
    );
}

#[test]
fn liveness_probe_changes_nothing() {
    let (mut host, _) = connected_pair();
    host.opponent_passed = true;
    host.handle_remote_message(Message::TestConnection());
    assert!(host.opponent_passed);
    assert!(host.player_turn);
    assert!(host.get_chat_messages().is_empty());
    assert!(host.take_outgoing().is_empty());
}

#[test]
fn other_peer_traffic_clears_opponent_passed() {
    let (mut host, _) = connected_pair();
    host.opponent_passed = true;
    host.handle_remote_message(Message::TextMessage("still here".to_string()));
    assert!(!host.opponent_passed);
    assert_eq!(host.get_chat_messages(), &vec!["opponent: still here".to_string()]);
}

#[test]
fn remote_move_that_wipes_out_a_player_forces_the_end() {
    let (mut host, _) = connected_pair();
    host.board = OthelloBoard::empty();
    host.board.set_piece(0, 1, 0).unwrap();
    host.board.set_piece(0, 2, 1).unwrap();
    host.player_turn = false;
    host.handle_remote_message(Message::SetPiece((0, 0)));
    assert_eq!(host.get_piece_at(0, 1), Some(1));
    assert_eq!(host.board.count_pieces(), (0, 3));
    assert_eq!(host.state, GameState::GameEnded(GameResult::PlayerLost));
    assert_eq!(host.take_outgoing(), vec![Message::GameEnded()]);
}

#[test]
fn local_move_that_wipes_out_the_peer_hands_the_turn_over() {
    let (mut host, mut guest) = connected_pair();
    for c in [&mut host, &mut guest] {
        c.board = OthelloBoard::empty();
        c.board.set_piece(0, 1, 1).unwrap();
        c.board.set_piece(0, 2, 0).unwrap();
    }
    host.try_set_piece_on_board(0, 0, false);
    assert_eq!(host.board.count_pieces(), (3, 0));
    assert!(!host.player_turn);
    assert_eq!(host.state, GameState::Playing);
    deliver(&mut host, &mut guest);
    assert_eq!(guest.state, GameState::GameEnded(GameResult::PlayerLost));
    deliver(&mut guest, &mut host);
    assert_eq!(host.state, GameState::GameEnded(GameResult::PlayerWon));
}

#[test]
fn result_follows_piece_counts_and_side() {
    let (mut host, mut guest) = connected_pair();
    assert_eq!(host.check_if_player_won(), GameResult::Tie);
    host.try_set_piece_on_board(2, 3, false);
    deliver(&mut host, &mut guest);
    assert_eq!(host.check_if_player_won(), GameResult::PlayerWon);
    assert_eq!(guest.check_if_player_won(), GameResult::PlayerLost);
}

#[test]
fn menu_offers_the_default_address() {
    let menu = MainMenuView::new();
    assert_eq!(menu.socket_addr, "192.168.56.101:8069");
}

#[test]
fn drained_events_apply_in_arrival_order() {
    let (mut host, mut guest) = connected_pair();
    host.try_set_piece_on_board(2, 3, false);
    host.push_chat_message("first".to_string(), false);
    let batch: Vec<Message> = host
        .take_outgoing()
        .into_iter()
        .map(|m| Message::from_bytes(&m.to_bytes()).unwrap())
        .collect();
    guest.drain_remote_events(batch);
    assert_eq!(guest.get_piece_at(3, 3), Some(0));
    assert!(guest.player_turn);
    assert_eq!(guest.get_chat_messages(), &vec!["opponent: first".to_string()]);
    guest.drain_remote_events(vec![Message::UndoMove(), Message::PassTurn()]);
    assert_eq!(guest.get_piece_at(3, 3), Some(1));
    assert!(guest.player_turn && guest.opponent_passed);
    assert_eq!(guest.get_chat_messages().len(), 3);
}
