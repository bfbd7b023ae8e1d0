use chess_engine::board::{any_marked, Board, Matrix, Vector};
use chess_engine::game::{Game, GameState, Move, Player, State};
use chess_engine::piece::{Kind, Piece};

fn piece(kind: Kind, owner: usize) -> Piece {
    Piece { kind, owner, has_moved: false }
}

fn moved(kind: Kind, owner: usize) -> Piece {
    Piece { kind, owner, has_moved: true }
}

fn at(game: &Game, x: i32, y: i32) -> Piece {
    *game.state.board.get(&Vector(x, y))
}

fn marked(mask: &Matrix<bool>) -> Vec<(i32, i32)> {
    let mut squares = Vec::new();
    for (y, row) in mask.0.iter().enumerate() {
        for (x, cell) in row.iter().enumerate() {
            if *cell {
                squares.push((x as i32, y as i32));
            }
        }
    }
    squares
}

fn same_state(a: &GameState, b: &GameState) -> bool {
    a.board.0 .0 == b.board.0 .0
        && a.turn == b.turn
        && a.halfmove_counter == b.halfmove_counter
        && a.players == b.players
}

/// Two players on an otherwise empty 8 by 8 board, kings where given.
fn bare_game(white_king: Vector, black_king: Vector) -> Game {
    let mut board = Board::new(8, 8);
    board.put(&white_king, piece(Kind::King, 1));
    board.put(&black_king, piece(Kind::King, 2));
    Game {
        state: GameState {
            board,
            turn: 1,
            halfmove_counter: 1,
            players: vec![
                Player {
                    direction: Vector(0, 1),
                    recent_move: None,
                    state: State::Normal,
                    king_pos: white_king,
                },
                Player {
                    direction: Vector(0, -1),
                    recent_move: None,
                    state: State::Normal,
                    king_pos: black_king,
                },
            ],
        },
        history: Vec::new(),
        selection: None,
        valid: Matrix::new(false, 8, 8),
    }
}

fn play(game: &mut Game, from: (i32, i32), to: (i32, i32)) {
    game.select(Vector(from.0, from.1));
    game.select(Vector(to.0, to.1));
}

#[test]
fn new_game_is_the_standard_start() {
    let game = Game::new();
    assert_eq!(game.state.turn, 1);
    assert_eq!(game.state.halfmove_counter, 1);
    assert_eq!(game.state.players.len(), 2);
    assert_eq!(game.state.players[0].direction, Vector(0, 1));
    assert_eq!(game.state.players[1].direction, Vector(0, -1));
    assert_eq!(game.state.players[0].king_pos, Vector(4, 0));
    assert_eq!(game.state.players[1].king_pos, Vector(4, 7));
    assert_eq!(game.state.players[0].recent_move, None);
    assert_eq!(game.state.players[0].state, State::Normal);
    assert!(game.history.is_empty());
    assert_eq!(game.selection, None);
    assert_eq!(game.valid.shape(), (8, 8));
    assert!(!any_marked(&game.valid));
    assert_eq!(game.state.board.0 .0, Board::standard().0 .0);
    assert_eq!(*game.current_player(), game.state.players[0]);
}

#[test]
fn accessors_of_the_state() {
    let game = Game::new();
    assert_eq!(*game.state.get_piece(&Vector(3, 0)), piece(Kind::Queen, 1));
    assert_eq!(*game.state.get_player(2), game.state.players[1]);
    assert!(game.state.in_bounds(&Vector(7, 0)));
    assert!(!game.state.in_bounds(&Vector(8, 0)));
}

#[test]
fn square_dist_and_is_diag() {
    let m = Move { piece: piece(Kind::Pawn, 1), start: Vector(4, 1), end: Vector(4, 3) };
    assert_eq!(m.square_dist(), 4);
    assert!(m.is_double_step());
    assert!(!m.is_diag());
    let d = Move { piece: piece(Kind::Pawn, 1), start: Vector(4, 4), end: Vector(5, 5) };
    assert_eq!(d.square_dist(), 2);
    assert!(d.is_diag());
    assert!(!d.is_double_step());
    let k = Move { piece: piece(Kind::Knight, 1), start: Vector(1, 0), end: Vector(2, 2) };
    assert_eq!(k.square_dist(), 5);
    assert!(!k.is_diag());
    let back = Move { piece: piece(Kind::Pawn, 2), start: Vector(3, 3), end: Vector(2, 2) };
    assert!(back.is_diag());
    let far = Move { piece: piece(Kind::Rook, 1), start: Vector(0, 0), end: Vector(7, 7) };
    assert_eq!(far.square_dist(), 98);
}

#[test]
fn selecting_a_pawn_shows_its_two_advances() {
    let mut game = Game::new();
    game.select(Vector(4, 1));
    assert_eq!(game.selection, Some(Vector(4, 1)));
    assert_eq!(marked(&game.valid), vec![(4, 2), (4, 3)]);
}

#[test]
fn selecting_a_knight_shows_its_jumps() {
    let mut game = Game::new();
    game.select(Vector(1, 0));
    assert_eq!(marked(&game.valid), vec![(0, 2), (2, 2)]);
}

#[test]
fn selecting_an_empty_square_or_an_opponent_does_nothing() {
    let mut game = Game::new();
    let before = game.state.clone();
    game.select(Vector(4, 4));
    assert_eq!(game.selection, None);
    assert!(!any_marked(&game.valid));
    game.select(Vector(4, 6));
    assert_eq!(game.selection, None);
    assert!(!any_marked(&game.valid));
    assert!(same_state(&before, &game.state));
    assert!(game.history.is_empty());
}

#[test]
fn an_illegal_target_disarms_and_changes_nothing() {
    let mut game = Game::new();
    let before = game.state.clone();
    game.select(Vector(4, 1));
    game.select(Vector(4, 5));
    assert_eq!(game.selection, None);
    assert!(!any_marked(&game.valid));
    assert!(same_state(&before, &game.state));
    assert!(game.history.is_empty());
}

#[test]
fn a_legal_move_is_applied() {
    let mut game = Game::new();
    play(&mut game, (4, 1), (4, 3));
    assert_eq!(at(&game, 4, 1), Piece::new());
    assert_eq!(at(&game, 4, 3), moved(Kind::Pawn, 1));
    assert_eq!(game.state.turn, 2);
    assert_eq!(game.state.halfmove_counter, 2);
    assert_eq!(game.history.len(), 1);
    assert_eq!(game.selection, None);
    assert!(!any_marked(&game.valid));
    assert_eq!(
        game.state.players[0].recent_move,
        Some(Move { piece: piece(Kind::Pawn, 1), start: Vector(4, 1), end: Vector(4, 3) })
    );
    assert_eq!(game.state.players[0].state, State::Normal);
    assert_eq!(game.state.players[1].state, State::Normal);
    assert_eq!(*game.current_player(), game.state.players[1]);
}

#[test]
fn the_turn_comes_round_again() {
    let mut game = Game::new();
    play(&mut game, (4, 1), (4, 3));
    play(&mut game, (4, 6), (4, 4));
    assert_eq!(game.state.turn, 1);
    assert_eq!(game.state.halfmove_counter, 3);
    // a pawn that has moved advances one square only, and not onto a piece
    game.select(Vector(4, 3));
    assert!(!any_marked(&game.valid));
    game.select(Vector(0, 0));
    game.select(Vector(3, 1));
    assert_eq!(marked(&game.valid), vec![(3, 2), (3, 3)]);
}

#[test]
fn unchecked_moves_and_rewind() {
    let mut game = Game::new();
    let start = game.state.clone();
    assert_eq!(Vector(5, 7).to_notation().unwrap(), "f8");
    game.move_piece_unchecked(&Vector(5, 7), &Vector(0, 0));
    assert_eq!(at(&game, 0, 0), moved(Kind::Bishop, 2));
    assert_eq!(at(&game, 5, 7), Piece::new());
    assert_eq!(game.state.turn, 2);
    game.move_piece_unchecked(&Vector(1, 0), &Vector(1, 7));
    assert_eq!(at(&game, 1, 7), moved(Kind::Knight, 1));
    assert_eq!(game.state.turn, 1);
    game.move_piece_unchecked(&Vector(4, 0), &Vector(3, 0));
    assert_eq!(at(&game, 3, 0), moved(Kind::King, 1));
    assert_eq!(game.state.players[0].king_pos, Vector(3, 0));
    game.move_piece_unchecked(&Vector(4, 7), &Vector(3, 7));
    assert_eq!(game.state.players[1].king_pos, Vector(3, 7));
    let after_four = game.state.clone();
    game.select(Vector(3, 0));
    assert_eq!(game.selection, Some(Vector(3, 0)));
    game.move_piece_unchecked(&Vector(3, 0), &Vector(3, 1));
    assert_eq!(game.history.len(), 5);
    game.rewind(1);
    assert!(same_state(&after_four, &game.state));
    assert_eq!(game.history.len(), 4);
    assert_eq!(game.selection, None);
    assert!(!any_marked(&game.valid));
    game.rewind(4);
    assert!(same_state(&start, &game.state));
    assert!(game.history.is_empty());
}

#[test]
fn rewind_by_none_goes_back_one_move() {
    let mut game = Game::new();
    play(&mut game, (4, 1), (4, 3));
    let after_one = game.state.clone();
    play(&mut game, (4, 6), (4, 4));
    game.rewind(0);
    assert!(same_state(&after_one, &game.state));
    assert_eq!(game.history.len(), 1);
}

#[test]
fn rewind_undoes_all_moves() {
    let mut game = Game::new();
    let start = game.state.clone();
    play(&mut game, (4, 1), (4, 3));
    play(&mut game, (3, 6), (3, 4));
    play(&mut game, (4, 3), (3, 4));
    assert_eq!(game.history.len(), 3);
    game.rewind(3);
    assert!(same_state(&start, &game.state));
    assert!(game.history.is_empty());
}

#[test]
fn a_pawn_takes_diagonally() {
    let mut game = Game::new();
    play(&mut game, (4, 1), (4, 3));
    play(&mut game, (3, 6), (3, 4));
    game.select(Vector(4, 3));
    assert_eq!(marked(&game.valid), vec![(3, 4), (4, 4)]);
    game.select(Vector(3, 4));
    assert_eq!(at(&game, 3, 4), moved(Kind::Pawn, 1));
    assert_eq!(at(&game, 4, 3), Piece::new());
}

#[test]
fn en_passant_takes_the_pawn_that_passed() {
    let mut game = Game::new();
    play(&mut game, (4, 1), (4, 3));
    play(&mut game, (0, 6), (0, 5));
    play(&mut game, (4, 3), (4, 4));
    play(&mut game, (5, 6), (5, 4));
    assert_eq!(at(&game, 5, 4), moved(Kind::Pawn, 2));
    game.select(Vector(4, 4));
    assert_eq!(marked(&game.valid), vec![(4, 5), (5, 5)]);
    let before = game.state.clone();
    game.select(Vector(5, 5));
    assert_eq!(at(&game, 5, 5), moved(Kind::Pawn, 1));
    assert_eq!(at(&game, 5, 4), Piece::new());
    assert_eq!(at(&game, 4, 4), Piece::new());
    for y in 0..8 {
        for x in 0..8 {
            if (x, y) != (5, 5) && (x, y) != (5, 4) && (x, y) != (4, 4) {
                assert_eq!(at(&game, x, y), *before.board.get(&Vector(x, y)));
            }
        }
    }
}

#[test]
fn en_passant_is_lost_after_another_move() {
    let mut game = Game::new();
    play(&mut game, (4, 1), (4, 3));
    play(&mut game, (0, 6), (0, 5));
    play(&mut game, (4, 3), (4, 4));
    play(&mut game, (5, 6), (5, 4));
    play(&mut game, (0, 1), (0, 2));
    play(&mut game, (0, 5), (0, 4));
    game.select(Vector(4, 4));
    assert_eq!(marked(&game.valid), vec![(4, 5)]);
    let before = game.state.clone();
    game.select(Vector(5, 5));
    assert!(same_state(&before, &game.state));
    assert_eq!(at(&game, 5, 4), moved(Kind::Pawn, 2));
}

#[test]
fn castling_brings_the_rook_over() {
    let mut game = Game::new();
    game.state.board.put(&Vector(5, 0), Piece::new());
    game.state.board.put(&Vector(6, 0), Piece::new());
    game.select(Vector(4, 0));
    assert_eq!(marked(&game.valid), vec![(5, 0), (6, 0)]);
    game.select(Vector(6, 0));
    assert_eq!(at(&game, 6, 0), moved(Kind::King, 1));
    assert_eq!(at(&game, 5, 0), moved(Kind::Rook, 1));
    assert_eq!(at(&game, 4, 0), Piece::new());
    assert_eq!(at(&game, 7, 0), Piece::new());
    assert_eq!(game.state.players[0].king_pos, Vector(6, 0));
    assert_eq!(game.state.turn, 2);
}

#[test]
fn castling_to_the_queen_side() {
    let mut game = Game::new();
    game.state.board.put(&Vector(1, 0), Piece::new());
    game.state.board.put(&Vector(2, 0), Piece::new());
    game.state.board.put(&Vector(3, 0), Piece::new());
    game.select(Vector(4, 0));
    assert_eq!(marked(&game.valid), vec![(2, 0), (3, 0)]);
    game.select(Vector(2, 0));
    assert_eq!(at(&game, 2, 0), moved(Kind::King, 1));
    assert_eq!(at(&game, 3, 0), moved(Kind::Rook, 1));
    assert_eq!(at(&game, 0, 0), Piece::new());
}

#[test]
fn no_castling_with_a_rook_that_has_moved() {
    let mut game = Game::new();
    game.state.board.put(&Vector(5, 0), Piece::new());
    game.state.board.put(&Vector(6, 0), Piece::new());
    game.state.board.put(&Vector(7, 0), moved(Kind::Rook, 1));
    game.select(Vector(4, 0));
    assert_eq!(marked(&game.valid), vec![(5, 0)]);
}

#[test]
fn no_castling_with_a_king_that_has_moved() {
    let mut game = Game::new();
    game.state.board.put(&Vector(5, 0), Piece::new());
    game.state.board.put(&Vector(6, 0), Piece::new());
    game.state.board.put(&Vector(4, 0), moved(Kind::King, 1));
    game.select(Vector(4, 0));
    assert_eq!(marked(&game.valid), vec![(5, 0)]);
}

#[test]
fn no_castling_through_a_piece() {
    let mut game = Game::new();
    game.state.board.put(&Vector(5, 0), Piece::new());
    game.select(Vector(4, 0));
    assert_eq!(marked(&game.valid), vec![(5, 0)]);
}

#[test]
fn no_castling_through_a_threat() {
    let mut game = Game::new();
    game.state.board.put(&Vector(5, 0), Piece::new());
    game.state.board.put(&Vector(6, 0), Piece::new());
    game.state.board.put(&Vector(5, 1), Piece::new());
    game.state.board.put(&Vector(5, 4), piece(Kind::Rook, 2));
    game.select(Vector(4, 0));
    assert!(!any_marked(&game.valid));
}

#[test]
fn checkmate_and_its_relief() {
    // the white king in the corner, boxed in by a queen that a rook guards
    let mut game = bare_game(Vector(0, 0), Vector(7, 7));
    game.state.board.put(&Vector(1, 1), piece(Kind::Queen, 2));
    game.state.board.put(&Vector(1, 7), piece(Kind::Rook, 2));
    assert_eq!(game.state.update_check(1), State::Checkmate);
    assert_eq!(game.state.update_check(2), State::Normal);
    // without the queen the king is free
    game.state.board.put(&Vector(1, 1), Piece::new());
    assert_eq!(game.state.update_check(1), State::Normal);
}

#[test]
fn stalemate() {
    let mut game = bare_game(Vector(0, 0), Vector(7, 7));
    game.state.board.put(&Vector(1, 2), piece(Kind::Queen, 2));
    assert_eq!(game.state.update_check(1), State::Stalemate);
}

#[test]
fn check_with_a_way_out() {
    let mut game = bare_game(Vector(0, 0), Vector(7, 7));
    game.state.board.put(&Vector(0, 5), piece(Kind::Rook, 2));
    assert_eq!(game.state.update_check(1), State::Check);
    game.select(Vector(0, 0));
    assert_eq!(marked(&game.valid), vec![(1, 0), (1, 1)]);
}

#[test]
fn a_move_records_every_end_state() {
    let mut game = bare_game(Vector(0, 0), Vector(7, 7));
    game.state.board.put(&Vector(1, 5), piece(Kind::Rook, 1));
    play(&mut game, (1, 5), (1, 7));
    assert_eq!(game.state.players[1].state, State::Check);
    assert_eq!(game.state.players[0].state, State::Normal);
}

#[test]
fn a_pinned_piece_may_not_leave_the_line() {
    let mut game = bare_game(Vector(4, 0), Vector(7, 7));
    game.state.board.put(&Vector(4, 1), piece(Kind::Knight, 1));
    game.state.board.put(&Vector(4, 6), piece(Kind::Rook, 2));
    game.select(Vector(4, 1));
    assert_eq!(game.selection, Some(Vector(4, 1)));
    assert!(!any_marked(&game.valid));
}

#[test]
fn promotion_to_a_queen() {
    let mut game = bare_game(Vector(0, 0), Vector(7, 5));
    game.state.board.put(&Vector(3, 6), moved(Kind::Pawn, 1));
    play(&mut game, (3, 6), (3, 7));
    assert_eq!(at(&game, 3, 7), moved(Kind::Queen, 1));
    assert_eq!(at(&game, 3, 6), Piece::new());
}

#[test]
fn show_moves_fills_the_mask_without_arming() {
    let mut game = Game::new();
    game.show_moves(Vector(6, 0));
    assert_eq!(game.selection, None);
    assert_eq!(marked(&game.valid), vec![(5, 2), (7, 2)]);
    game.show_moves(Vector(4, 4));
    assert!(!any_marked(&game.valid));
}

#[test]
fn deselect_clears() {
    let mut game = Game::new();
    game.select(Vector(4, 1));
    game.deselect();
    assert_eq!(game.selection, None);
    assert!(!any_marked(&game.valid));
    assert_eq!(game.valid.shape(), (8, 8));
}

#[test]
fn move_piece_needs_a_marked_square() {
    let mut game = Game::new();
    game.select(Vector(6, 0));
    game.move_piece(Vector(5, 2));
    assert_eq!(at(&game, 5, 2), moved(Kind::Knight, 1));
    assert_eq!(game.selection, None);
}

#[test]
fn a_game_stays_well_formed() {
    let mut game = Game::new();
    assert!(game.is_wf());
    assert!(game.is_coherent());
    game.select(Vector(4, 1));
    assert!(game.is_wf());
    assert!(game.is_coherent());
    game.select(Vector(4, 3));
    assert!(game.is_wf());
    assert!(game.is_coherent());
    game.move_piece_unchecked(&Vector(5, 7), &Vector(0, 0));
    assert!(game.is_wf());
    game.rewind(2);
    assert!(game.is_wf());
    assert!(game.is_coherent());
}

#[test]
fn ill_formed_games_are_told() {
    let mut game = Game::new();
    game.state.board.put(&Vector(3, 3), piece(Kind::Queen, 3));
    assert!(!game.is_wf());
    assert!(!game.state.is_wf());
    let mut game = Game::new();
    game.state.turn = 3;
    assert!(!game.is_wf());
    let mut game = Game::new();
    game.state.players[0].king_pos = Vector(8, 0);
    assert!(!game.is_wf());
    let mut game = Game::new();
    game.state.players[1].direction = Vector(1, 1);
    assert!(!game.is_wf());
    let mut game = Game::new();
    game.valid = Matrix::new(false, 8, 7);
    assert!(!game.is_wf());
    let mut game = Game::new();
    game.state.board.0 .0[2].pop();
    assert!(!game.is_wf());
}

#[test]
fn a_stale_mask_is_told() {
    let mut game = Game::new();
    game.select(Vector(4, 1));
    assert!(game.is_coherent());
    game.show_moves(Vector(1, 0));
    assert!(!game.is_coherent());
    game.selection = Some(Vector(9, 9));
    assert!(!game.is_coherent());
}

#[test]
fn applies_tells_which_moves_can_be_made() {
    let mut game = Game::new();
    assert!(game.state.applies(&Vector(5, 7), &Vector(0, 0)));
    assert!(game.state.applies(&Vector(4, 1), &Vector(4, 3)));
    assert!(!game.state.applies(&Vector(4, 4), &Vector(4, 5)));
    assert!(!game.state.applies(&Vector(4, 1), &Vector(4, 8)));
    assert!(!game.state.applies(&Vector(-1, 1), &Vector(4, 3)));
    // a king's move of two squares needs a rook in its direction
    assert!(game.state.applies(&Vector(4, 0), &Vector(6, 0)));
    game.state.board.put(&Vector(7, 0), Piece::new());
    assert!(!game.state.applies(&Vector(4, 0), &Vector(6, 0)));
    assert!(game.state.applies(&Vector(4, 0), &Vector(5, 0)));
    // a diagonal step of a pawn onto an empty square vacates the square behind it
    let mut game = bare_game(Vector(0, 0), Vector(7, 7));
    game.state.board.put(&Vector(3, 1), piece(Kind::Pawn, 1));
    assert!(game.state.applies(&Vector(3, 1), &Vector(4, 2)));
    assert!(!game.state.applies(&Vector(3, 1), &Vector(4, 0)));
    // a king or pawn of the player that is not to move needs a last move of its own
    assert!(!game.state.applies(&Vector(7, 7), &Vector(7, 6)));
    game.state.halfmove_counter = u32::MAX;
    assert!(!game.state.applies(&Vector(3, 1), &Vector(3, 2)));
    game.state.halfmove_counter = 1;
    game.state.turn = 0;
    assert!(!game.state.applies(&Vector(3, 1), &Vector(3, 2)));
}

#[test]
fn a_king_may_not_stay_on_the_line_of_a_rook() {
    // king on e2, an enemy rook on e7: neither e1 nor e3 is offered
    let mut game = bare_game(Vector(4, 1), Vector(7, 7));
    game.state.board.put(&Vector(4, 6), piece(Kind::Rook, 2));
    game.select(Vector(4, 1));
    assert_eq!(marked(&game.valid), vec![(3, 0), (5, 0), (3, 1), (5, 1), (3, 2), (5, 2)]);
    assert!(!game.valid.get(&Vector(4, 0)));
    assert!(!game.valid.get(&Vector(4, 2)));
    let before = game.state.clone();
    game.select(Vector(4, 0));
    assert!(same_state(&before, &game.state));
    assert_eq!(at(&game, 4, 1), piece(Kind::King, 1));
    assert!(game.history.is_empty());
}

#[test]
fn a_king_in_check_may_not_step_back_along_the_file() {
    let mut game = Game::new();
    game.state.board.set(Piece::new(), 1, 4);
    game.state.board.set(moved(Kind::Rook, 2), 6, 4);
    game.move_piece_unchecked(&Vector(4, 0), &Vector(4, 1));
    game.move_piece_unchecked(&Vector(0, 6), &Vector(0, 5));
    assert_eq!(game.state.players[0].state, State::Check);
    game.select(Vector(4, 1));
    assert_eq!(game.selection, Some(Vector(4, 1)));
    assert_eq!(marked(&game.valid), vec![(3, 2), (5, 2)]);
    game.select(Vector(4, 0));
    assert_eq!(at(&game, 4, 1), moved(Kind::King, 1));
    assert_eq!(at(&game, 4, 0), Piece::new());
    assert_eq!(game.state.turn, 1);
    assert_eq!(game.history.len(), 2);
    assert_eq!(game.selection, None);
}

#[test]
fn a_square_behind_the_king_is_no_escape() {
    // the king on a2 is checked along the a-file and shut off the b-file
    let mut game = bare_game(Vector(0, 1), Vector(7, 7));
    game.state.board.put(&Vector(0, 5), piece(Kind::Rook, 2));
    game.state.board.put(&Vector(1, 5), piece(Kind::Rook, 2));
    assert_eq!(game.state.update_check(1), State::Checkmate);
    game.select(Vector(0, 1));
    assert!(!any_marked(&game.valid));
}

#[test]
fn a_king_may_take_an_attacker_that_nothing_guards() {
    let mut game = bare_game(Vector(0, 0), Vector(7, 7));
    game.state.board.put(&Vector(0, 1), piece(Kind::Rook, 2));
    game.select(Vector(0, 0));
    assert_eq!(marked(&game.valid), vec![(1, 0), (0, 1)]);
    // a second rook guards the first
    game.state.board.put(&Vector(0, 5), piece(Kind::Rook, 2));
    game.deselect();
    game.select(Vector(0, 0));
    assert_eq!(marked(&game.valid), vec![(1, 0)]);
}

#[test]
fn a_refused_attempt_needs_no_room_in_the_counter() {
    let mut game = Game::new();
    game.state.halfmove_counter = u32::MAX;
    game.select(Vector(4, 1));
    game.select(Vector(4, 5));
    assert_eq!(game.selection, None);
    assert_eq!(game.state.halfmove_counter, u32::MAX);
    assert!(game.history.is_empty());
}
