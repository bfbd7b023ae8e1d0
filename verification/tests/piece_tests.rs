use chess_engine::board::{Board, Matrix, Vector};
use chess_engine::game::{Game, GameState, Move, Player, State};
use chess_engine::piece::{Kind, Piece};

fn piece(kind: Kind, owner: usize) -> Piece {
    Piece { kind, owner, has_moved: false }
}

fn marked(mask: &Matrix<bool>) -> Vec<(i32, i32)> {
    let mut squares = Vec::new();
    for (y, row) in mask.0.iter().enumerate() {
        for (x, cell) in row.iter().enumerate() {
            if *cell {
                squares.push((x as i32, y as i32));
            }
        }
    }
    squares
}

fn state_with(pieces: &[(i32, i32, Piece)]) -> GameState {
    let mut board = Board::new(8, 8);
    board.put(&Vector(4, 0), piece(Kind::King, 1));
    board.put(&Vector(4, 7), piece(Kind::King, 2));
    for (x, y, p) in pieces {
        board.put(&Vector(*x, *y), *p);
    }
    GameState {
        board,
        turn: 1,
        halfmove_counter: 1,
        players: vec![
            Player {
                direction: Vector(0, 1),
                recent_move: None,
                state: State::Normal,
                king_pos: Vector(4, 0),
            },
            Player {
                direction: Vector(0, -1),
                recent_move: None,
                state: State::Normal,
                king_pos: Vector(4, 7),
            },
        ],
    }
}

#[test]
fn attack_on_an_empty_square() {
    let state = state_with(&[]);
    let mut valid = Matrix::new(false, 8, 8);
    let mut threat = Matrix::new(false, 8, 8);
    let rook = piece(Kind::Rook, 1);
    assert!(rook.attack(Vector(2, 2), &state, &mut valid, Some(&mut threat)));
    assert_eq!(marked(&valid), vec![(2, 2)]);
    assert_eq!(marked(&threat), vec![(2, 2)]);
}

#[test]
fn attack_on_an_opponent() {
    let state = state_with(&[(2, 2, piece(Kind::Pawn, 2))]);
    let mut valid = Matrix::new(false, 8, 8);
    let mut threat = Matrix::new(false, 8, 8);
    let rook = piece(Kind::Rook, 1);
    assert!(!rook.attack(Vector(2, 2), &state, &mut valid, Some(&mut threat)));
    assert_eq!(marked(&valid), vec![(2, 2)]);
    assert_eq!(marked(&threat), vec![(2, 2)]);
}

#[test]
fn attack_on_an_ally() {
    let state = state_with(&[(2, 2, piece(Kind::Pawn, 1))]);
    let mut valid = Matrix::new(false, 8, 8);
    let mut threat = Matrix::new(false, 8, 8);
    let rook = piece(Kind::Rook, 1);
    assert!(!rook.attack(Vector(2, 2), &state, &mut valid, Some(&mut threat)));
    assert!(marked(&valid).is_empty());
    assert_eq!(marked(&threat), vec![(2, 2)]);
}

#[test]
fn attack_outside_the_board() {
    let state = state_with(&[]);
    let mut valid = Matrix::new(false, 8, 8);
    let mut threat = Matrix::new(false, 8, 8);
    let rook = piece(Kind::Rook, 1);
    assert!(!rook.attack(Vector(8, 2), &state, &mut valid, Some(&mut threat)));
    assert!(!rook.attack(Vector(-1, 2), &state, &mut valid, Some(&mut threat)));
    assert!(marked(&valid).is_empty());
    assert!(marked(&threat).is_empty());
}

#[test]
fn attack_without_a_threat_mask() {
    let state = state_with(&[]);
    let mut valid = Matrix::new(false, 8, 8);
    let pawn = piece(Kind::Pawn, 1);
    assert!(pawn.attack(Vector(3, 3), &state, &mut valid, None));
    assert_eq!(marked(&valid), vec![(3, 3)]);
}

#[test]
fn rook_slides_until_blocked() {
    let rook = piece(Kind::Rook, 1);
    let state = state_with(&[(2, 2, rook), (2, 5, piece(Kind::Pawn, 2)), (5, 2, piece(Kind::Pawn, 1))]);
    let (valid, threat) = rook.claim_squares(&Vector(2, 2), &state);
    assert_eq!(
        marked(&valid),
        vec![(2, 0), (2, 1), (0, 2), (1, 2), (3, 2), (4, 2), (2, 3), (2, 4), (2, 5)]
    );
    assert_eq!(
        marked(&threat),
        vec![(2, 0), (2, 1), (0, 2), (1, 2), (3, 2), (4, 2), (5, 2), (2, 3), (2, 4), (2, 5)]
    );
}

#[test]
fn bishop_slides_along_diagonals() {
    let bishop = piece(Kind::Bishop, 1);
    let state = state_with(&[(1, 1, bishop), (3, 3, piece(Kind::Pawn, 2))]);
    let (valid, threat) = bishop.claim_squares(&Vector(1, 1), &state);
    assert_eq!(marked(&valid), vec![(0, 0), (2, 0), (0, 2), (2, 2), (3, 3)]);
    assert_eq!(marked(&threat), marked(&valid));
}

#[test]
fn queen_moves_like_rook_and_bishop() {
    let queen = piece(Kind::Queen, 2);
    let state = state_with(&[(0, 3, queen)]);
    let (valid, _) = queen.claim_squares(&Vector(0, 3), &state);
    let rook = piece(Kind::Rook, 2);
    let bishop = piece(Kind::Bishop, 2);
    let (straight, _) = rook.claim_squares(&Vector(0, 3), &state);
    let (slanted, _) = bishop.claim_squares(&Vector(0, 3), &state);
    let mut both = marked(&straight);
    both.extend(marked(&slanted));
    both.sort_by_key(|s| (s.1, s.0));
    assert_eq!(marked(&valid), both);
    assert_eq!(both.len(), 7 + 7 + 3 + 3);
}

#[test]
fn extend_follows_the_given_directions() {
    let rook = piece(Kind::Rook, 1);
    let state = state_with(&[(2, 2, rook)]);
    let mut valid = Matrix::new(false, 8, 8);
    let mut threat = Matrix::new(false, 8, 8);
    rook.extend(&Vector(2, 2), vec![Vector(1, 0), Vector(-1, -1)], &state, &mut valid, &mut threat);
    assert_eq!(
        marked(&valid),
        vec![(0, 0), (1, 1), (3, 2), (4, 2), (5, 2), (6, 2), (7, 2)]
    );
    assert_eq!(marked(&threat), marked(&valid));
}

#[test]
fn knight_jumps_over_pieces() {
    let game = Game::new();
    let knight = piece(Kind::Knight, 1);
    let (valid, threat) = knight.claim_squares(&Vector(1, 0), &game.state);
    assert_eq!(marked(&valid), vec![(0, 2), (2, 2)]);
    assert_eq!(marked(&threat), vec![(3, 1), (0, 2), (2, 2)]);
}

#[test]
fn pawn_threatens_diagonals_it_cannot_enter() {
    let pawn = piece(Kind::Pawn, 1);
    let state = state_with(&[(3, 1, pawn)]);
    let (valid, threat) = pawn.claim_squares(&Vector(3, 1), &state);
    assert_eq!(marked(&valid), vec![(3, 2), (3, 3)]);
    assert_eq!(marked(&threat), vec![(2, 2), (4, 2)]);
}

#[test]
fn pawn_of_the_second_player_moves_down() {
    let pawn = piece(Kind::Pawn, 2);
    let state = state_with(&[(3, 6, pawn), (2, 5, piece(Kind::Knight, 1))]);
    let (valid, threat) = pawn.claim_squares(&Vector(3, 6), &state);
    assert_eq!(marked(&valid), vec![(3, 4), (2, 5), (3, 5)]);
    assert_eq!(marked(&threat), vec![(2, 5), (4, 5)]);
}

#[test]
fn blocked_pawn_cannot_advance() {
    let pawn = piece(Kind::Pawn, 1);
    let state = state_with(&[(3, 1, pawn), (3, 2, piece(Kind::Knight, 2))]);
    let (valid, _) = pawn.claim_squares(&Vector(3, 1), &state);
    assert!(marked(&valid).is_empty());
    let state = state_with(&[(3, 1, pawn), (3, 3, piece(Kind::Knight, 2))]);
    let (valid, _) = pawn.claim_squares(&Vector(3, 1), &state);
    assert_eq!(marked(&valid), vec![(3, 2)]);
}

#[test]
fn pawn_sees_en_passant_only_after_the_double_step() {
    let white = Piece { kind: Kind::Pawn, owner: 1, has_moved: true };
    let black = Piece { kind: Kind::Pawn, owner: 2, has_moved: true };
    let mut state = state_with(&[(4, 4, white), (5, 4, black)]);
    let (valid, _) = white.claim_squares(&Vector(4, 4), &state);
    assert_eq!(marked(&valid), vec![(4, 5)]);
    state.players[1].recent_move =
        Some(Move { piece: piece(Kind::Pawn, 2), start: Vector(5, 6), end: Vector(5, 4) });
    let (valid, _) = white.claim_squares(&Vector(4, 4), &state);
    assert_eq!(marked(&valid), vec![(4, 5), (5, 5)]);
    state.players[1].recent_move =
        Some(Move { piece: piece(Kind::Pawn, 2), start: Vector(5, 5), end: Vector(5, 4) });
    let (valid, _) = white.claim_squares(&Vector(4, 4), &state);
    assert_eq!(marked(&valid), vec![(4, 5)]);
}

#[test]
fn king_avoids_threatened_squares() {
    let king = piece(Kind::King, 1);
    let state = state_with(&[(3, 5, piece(Kind::Rook, 2))]);
    let (valid, threat) = king.claim_squares(&Vector(4, 0), &state);
    assert_eq!(marked(&valid), vec![(5, 0), (4, 1), (5, 1)]);
    assert!(threat.get(&Vector(3, 0)));
    assert!(threat.get(&Vector(3, 1)));
    assert!(!threat.get(&Vector(4, 0)));
    // the other king threatens the squares around it
    assert!(threat.get(&Vector(3, 6)));
    assert!(threat.get(&Vector(5, 7)));
    assert!(!threat.get(&Vector(4, 7)));
}

#[test]
fn king_reports_the_threat_to_its_own_square() {
    let king = piece(Kind::King, 1);
    let state = state_with(&[(4, 5, piece(Kind::Rook, 2))]);
    let (_, threat) = king.claim_squares(&Vector(4, 0), &state);
    assert!(threat.get(&Vector(4, 0)));
}

#[test]
fn kings_keep_apart() {
    let mut board = Board::new(8, 8);
    board.put(&Vector(4, 3), piece(Kind::King, 1));
    board.put(&Vector(4, 5), piece(Kind::King, 2));
    let mut state = state_with(&[]);
    state.board = board;
    state.players[0].king_pos = Vector(4, 3);
    state.players[1].king_pos = Vector(4, 5);
    let (valid, _) = piece(Kind::King, 1).claim_squares(&Vector(4, 3), &state);
    assert_eq!(marked(&valid), vec![(3, 2), (4, 2), (5, 2), (3, 3), (5, 3)]);
}

#[test]
fn empty_piece_claims_nothing() {
    let game = Game::new();
    let (valid, threat) = Piece::new().claim_squares(&Vector(4, 4), &game.state);
    assert!(marked(&valid).is_empty());
    assert!(marked(&threat).is_empty());
    assert_eq!(valid.shape(), (8, 8));
}

#[test]
fn speculate_removes_moves_that_expose_the_king() {
    let rook = piece(Kind::Rook, 1);
    let state = state_with(&[(4, 2, rook), (4, 5, piece(Kind::Rook, 2))]);
    let (valid, threat) = rook.claim_squares(&Vector(4, 2), &state);
    assert_eq!(marked(&valid).len(), 4 + 3 + 1 + 3);
    let (valid, threat) = rook.speculate(valid, threat, &Vector(4, 2), &state);
    assert_eq!(marked(&valid), vec![(4, 1), (4, 3), (4, 4), (4, 5)]);
    assert_eq!(marked(&threat), vec![(4, 0), (4, 1), (4, 3), (4, 4), (4, 5)]);
}

#[test]
fn speculate_keeps_moves_when_the_king_is_safe() {
    let game = Game::new();
    let knight = piece(Kind::Knight, 1);
    let (valid, threat) = knight.claim_squares(&Vector(1, 0), &game.state);
    let (kept, _) = knight.speculate(valid.clone(), threat, &Vector(1, 0), &game.state);
    assert_eq!(kept.0, valid.0);
}

#[test]
fn side_effect_of_a_castle() {
    let mut state = state_with(&[(7, 0, piece(Kind::Rook, 1))]);
    let king = piece(Kind::King, 1);
    state.players[0].recent_move = Some(Move { piece: king, start: Vector(4, 0), end: Vector(6, 0) });
    king.side_effects(&Vector(4, 0), &mut state);
    assert_eq!(*state.board.get(&Vector(5, 0)), Piece { kind: Kind::Rook, owner: 1, has_moved: true });
    assert_eq!(*state.board.get(&Vector(7, 0)), Piece::new());
    assert_eq!(*state.board.get(&Vector(4, 0)), king);
}

#[test]
fn side_effect_of_a_plain_king_move_is_nothing() {
    let mut state = state_with(&[(7, 0, piece(Kind::Rook, 1))]);
    let king = piece(Kind::King, 1);
    state.players[0].recent_move = Some(Move { piece: king, start: Vector(4, 0), end: Vector(5, 0) });
    let before = state.board.clone();
    king.side_effects(&Vector(4, 0), &mut state);
    assert_eq!(state.board.0 .0, before.0 .0);
}

#[test]
fn side_effect_of_en_passant() {
    let white = Piece { kind: Kind::Pawn, owner: 1, has_moved: true };
    let black = Piece { kind: Kind::Pawn, owner: 2, has_moved: true };
    let mut state = state_with(&[(4, 4, white), (5, 4, black)]);
    state.players[0].recent_move = Some(Move { piece: white, start: Vector(4, 4), end: Vector(5, 5) });
    let before = state.board.clone();
    white.side_effects(&Vector(4, 4), &mut state);
    assert_eq!(*state.board.get(&Vector(5, 4)), Piece::new());
    assert_eq!(*state.board.get(&Vector(4, 4)), white);
    for y in 0..8 {
        for x in 0..8 {
            if (x, y) != (5, 4) {
                assert_eq!(*state.board.get(&Vector(x, y)), *before.get(&Vector(x, y)));
            }
        }
    }
}

#[test]
fn side_effect_of_promotion() {
    let white = Piece { kind: Kind::Pawn, owner: 1, has_moved: true };
    let mut state = state_with(&[(0, 6, white)]);
    state.players[0].recent_move = Some(Move { piece: white, start: Vector(0, 6), end: Vector(0, 7) });
    white.side_effects(&Vector(0, 6), &mut state);
    assert_eq!(*state.board.get(&Vector(0, 6)), Piece { kind: Kind::Queen, owner: 1, has_moved: true });
}

#[test]
fn side_effect_of_other_kinds_is_nothing() {
    let mut state = state_with(&[(2, 2, piece(Kind::Knight, 1))]);
    let before = state.board.clone();
    piece(Kind::Knight, 1).side_effects(&Vector(2, 2), &mut state);
    assert_eq!(state.board.0 .0, before.0 .0);
}

#[test]
fn speculate_tests_the_destination_of_a_king() {
    let king = piece(Kind::King, 1);
    let state = state_with(&[(4, 5, piece(Kind::Rook, 2))]);
    let (valid, threat) = king.claim_squares(&Vector(4, 0), &state);
    assert_eq!(marked(&valid), vec![(3, 0), (5, 0), (3, 1), (5, 1)]);
    let (kept, _) = king.speculate(valid, threat, &Vector(4, 0), &state);
    assert_eq!(marked(&kept), vec![(3, 0), (5, 0), (3, 1), (5, 1)]);
    // one rank up, the square behind the king is open to the rook once the king leaves
    let mut state = state_with(&[(4, 5, piece(Kind::Rook, 2)), (4, 1, king)]);
    state.board.put(&Vector(4, 0), Piece::new());
    state.players[0].king_pos = Vector(4, 1);
    let (valid, threat) = king.claim_squares(&Vector(4, 1), &state);
    assert!(valid.get(&Vector(4, 0)));
    let (kept, _) = king.speculate(valid, threat, &Vector(4, 1), &state);
    assert!(!kept.get(&Vector(4, 0)));
    assert_eq!(marked(&kept), vec![(3, 0), (5, 0), (3, 1), (5, 1), (3, 2), (5, 2)]);
}
