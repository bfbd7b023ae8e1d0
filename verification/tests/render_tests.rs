use chess_engine::board::{Board, Matrix, Vector};
use chess_engine::game::Game;
use chess_engine::piece::{Kind, Piece};

#[test]
fn drawing_of_a_small_board() {
    let mut board = Board::new(2, 2);
    board.put(&Vector(0, 0), Piece { kind: Kind::King, owner: 1, has_moved: false });
    board.put(&Vector(1, 1), Piece { kind: Kind::Pawn, owner: 12, has_moved: false });
    let mut marks = Matrix::new(false, 2, 2);
    marks.put(&Vector(1, 0), true);
    let expected = "\
+-----+-----+
|     |     |
|     | P:12 |
|     |     |
+-----+-----+
|     | * * |
| K:1 |     |
|     | * * |
+-----+-----+
";
    assert_eq!(board.drawing(&marks), expected);
}

#[test]
fn text_of_a_small_board_names_every_square() {
    let mut board = Board::new(1, 2);
    board.put(&Vector(1, 0), Piece { kind: Kind::Queen, owner: 2, has_moved: true });
    let expected = "\
+-----+-----+
|     |     |
|  :0 | Q:2 |
|     |     |
+-----+-----+
";
    assert_eq!(board.to_text(), expected);
}

#[test]
fn drawing_of_a_new_game_ends_with_the_status() {
    let game = Game::new();
    let text = game.drawing();
    assert!(text.starts_with("+-----+-----+-----+-----+-----+-----+-----+-----+\n|     |"));
    assert!(text.contains("| R:2 | N:2 | B:2 | Q:2 | K:2 | B:2 | N:2 | R:2 |\n"));
    assert!(text.ends_with("+\nplayer to move: 1\nhalfmove counter: 1\n"));
    assert_eq!(text.lines().count(), 8 * 4 + 1 + 2);
}

#[test]
fn drawing_tells_the_last_move_and_the_marks() {
    let mut game = Game::new();
    game.select(Vector(4, 1));
    game.select(Vector(4, 3));
    game.select(Vector(4, 6));
    let text = game.drawing();
    assert!(text.contains("| * * |"));
    assert!(text.ends_with("move: P:1 from e2 to e4\nplayer to move: 2\nhalfmove counter: 2\n"));
}

#[test]
fn drawing_tells_check() {
    let mut game = Game::new();
    // a rook is dropped in front of the second player's king
    game.state.board.put(&Vector(4, 6), Piece::new());
    game.state.board.put(&Vector(4, 3), Piece { kind: Kind::Rook, owner: 1, has_moved: false });
    game.state.board.put(&Vector(4, 1), Piece::new());
    game.select(Vector(4, 3));
    game.select(Vector(4, 4));
    let text = game.drawing();
    assert!(text.ends_with(
        "move: R:1 from e4 to e5\nplayer to move: 2\nhalfmove counter: 2\nplayer 2 is in check!\n"
    ));
}
