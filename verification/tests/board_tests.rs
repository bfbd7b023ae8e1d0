use chess_engine::board::{any_marked, same_marks, Board, Matrix, Vector};
use chess_engine::piece::{Kind, Piece};

fn piece(kind: Kind, owner: usize) -> Piece {
    Piece { kind, owner, has_moved: false }
}

#[test]
fn standard_board_has_kings_on_the_e_file() {
    let board = Board::standard();
    assert_eq!(*board.get(&Vector(4, 0)), piece(Kind::King, 1));
    assert_eq!(*board.get(&Vector(4, 7)), piece(Kind::King, 2));
}

#[test]
fn standard_board_back_ranks_and_pawns() {
    let board = Board::standard();
    let kinds = [
        Kind::Rook,
        Kind::Knight,
        Kind::Bishop,
        Kind::Queen,
        Kind::King,
        Kind::Bishop,
        Kind::Knight,
        Kind::Rook,
    ];
    for (file, kind) in kinds.iter().enumerate() {
        let x = file as i32;
        assert_eq!(*board.get(&Vector(x, 0)), piece(*kind, 1));
        assert_eq!(*board.get(&Vector(x, 1)), piece(Kind::Pawn, 1));
        assert_eq!(*board.get(&Vector(x, 6)), piece(Kind::Pawn, 2));
        assert_eq!(*board.get(&Vector(x, 7)), piece(*kind, 2));
        for y in 2..6 {
            assert_eq!(*board.get(&Vector(x, y)), Piece::new());
        }
    }
}

#[test]
fn new_board_is_empty_and_has_its_shape() {
    let board = Board::new(3, 5);
    assert_eq!(board.shape(), (3, 5));
    for y in 0..3 {
        for x in 0..5 {
            assert_eq!(*board.get(&Vector(x, y)), Piece::new());
        }
    }
}

#[test]
fn board_without_rows_has_no_square() {
    let board = Board::new(0, 4);
    assert_eq!(board.shape(), (0, 0));
    assert!(!board.in_bounds(&Vector(0, 0)));
}

#[test]
fn in_bounds_at_the_edges() {
    let board = Board::new(8, 8);
    assert!(board.in_bounds(&Vector(0, 0)));
    assert!(board.in_bounds(&Vector(7, 7)));
    assert!(!board.in_bounds(&Vector(8, 0)));
    assert!(!board.in_bounds(&Vector(0, 8)));
    assert!(!board.in_bounds(&Vector(-1, 0)));
    assert!(!board.in_bounds(&Vector(0, -1)));
}

#[test]
fn in_bounds_on_a_board_that_is_not_square() {
    let board = Board::new(2, 5);
    assert!(board.in_bounds(&Vector(4, 1)));
    assert!(!board.in_bounds(&Vector(1, 4)));
}

#[test]
fn set_takes_row_then_column() {
    let mut board = Board::new(4, 6);
    board.set(piece(Kind::Queen, 2), 1, 5);
    assert_eq!(*board.get(&Vector(5, 1)), piece(Kind::Queen, 2));
    assert_eq!(*board.get(&Vector(1, 1)), Piece::new());
    board.put(&Vector(5, 1), Piece::new());
    assert_eq!(*board.get(&Vector(5, 1)), Piece::new());
}

#[test]
fn board_clone_is_independent() {
    let mut board = Board::standard();
    let copy = board.clone();
    board.put(&Vector(0, 0), Piece::new());
    assert_eq!(*copy.get(&Vector(0, 0)), piece(Kind::Rook, 1));
    assert_eq!(*board.get(&Vector(0, 0)), Piece::new());
}

#[test]
fn matrix_new_get_put_shape() {
    let mut m = Matrix::new(false, 2, 3);
    assert_eq!(m.shape(), (2, 3));
    assert!(!m.get(&Vector(2, 1)));
    m.put(&Vector(2, 1), true);
    assert!(m.get(&Vector(2, 1)));
    assert!(!m.get(&Vector(1, 1)));
    assert!(m.in_bounds(&Vector(2, 1)));
    assert!(!m.in_bounds(&Vector(3, 1)));
    let copy = m.clone();
    assert_eq!(copy.0, m.0);
}

#[test]
fn vector_addition_and_scaling() {
    assert_eq!(Vector(1, 2) + Vector(3, -5), Vector(4, -3));
    assert_eq!(Vector(1, -2) * -1, Vector(-1, 2));
    assert_eq!(Vector(0, 1) * 2, Vector(0, 2));
}

#[test]
fn kind_letters() {
    assert_eq!(Kind::King.letter(), 'K');
    assert_eq!(Kind::Queen.letter(), 'Q');
    assert_eq!(Kind::Rook.letter(), 'R');
    assert_eq!(Kind::Bishop.letter(), 'B');
    assert_eq!(Kind::Knight.letter(), 'N');
    assert_eq!(Kind::Pawn.letter(), 'P');
    assert_eq!(Kind::Empty.letter(), ' ');
}

#[test]
fn new_piece_is_vacant() {
    assert_eq!(Piece::new(), Piece { kind: Kind::Empty, owner: 0, has_moved: false });
}

#[test]
fn vector_add_assign() {
    let mut v = Vector(3, 4);
    v += Vector(-1, 2);
    assert_eq!(v, Vector(2, 6));
}

#[test]
fn masks_are_compared_cell_by_cell() {
    let mut a = Matrix::new(false, 2, 2);
    let b = Matrix::new(false, 2, 2);
    assert!(same_marks(&a, &b));
    a.put(&Vector(1, 1), true);
    assert!(!same_marks(&a, &b));
    assert!(!same_marks(&b, &Matrix::new(false, 2, 3)));
    assert!(any_marked(&a));
    assert!(!any_marked(&b));
    assert!(a.is_wf());
    assert!(!Matrix(vec![vec![true], vec![]]).is_wf());
}

#[test]
fn boards_and_grids_are_indexed_by_coordinates() {
    let mut board = Board::standard();
    assert_eq!(board[&Vector(3, 7)], piece(Kind::Queen, 2));
    board[&Vector(3, 3)] = piece(Kind::Knight, 1);
    assert_eq!(*board.get(&Vector(3, 3)), piece(Kind::Knight, 1));
    assert_eq!(board[&Vector(3, 2)], Piece::new());
    let mut marks = Matrix::new(false, 3, 4);
    marks[&Vector(3, 1)] = true;
    assert!(marks[&Vector(3, 1)]);
    assert!(!marks[&Vector(1, 3 - 1)]);
    assert!(marks.0[1][3]);
}
