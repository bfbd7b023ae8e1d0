//! Coordinates, rectangular grids and the chess board.

use crate::piece::{vacant, Kind, Piece};
use vstd::prelude::*;

verus! {

/// The largest number of rows or columns of a grid whose squares, and the
/// squares two steps beyond its edges, all have `i32` coordinates.
pub const MAX_SIDE: usize = 2147483646;

/// A coordinate or an offset: `.0` is the file (column), `.1` the rank (row).
/// Nothing keeps a `Vector` inside any board.
#[derive(Clone, Copy, Debug, PartialEq, Eq, Structural)]
pub struct Vector(pub i32, pub i32);

impl Vector {
    /// Whether both coordinates of an integer pair fit in a `Vector`.
    pub open spec fn fits(x: int, y: int) -> bool {
        i32::MIN <= x <= i32::MAX && i32::MIN <= y <= i32::MAX
    }
}

impl std::ops::Add<Vector> for Vector {
    type Output = Vector;

    fn add(self, rhs: Vector) -> (sum: Vector) {
        Vector(self.0 + rhs.0, self.1 + rhs.1)
    }
}

impl vstd::std_specs::ops::AddSpecImpl<Vector> for Vector {
    open spec fn obeys_add_spec() -> bool {
        true
    }

    open spec fn add_req(self, rhs: Vector) -> bool {
        Vector::fits(self.0 + rhs.0, self.1 + rhs.1)
    }

    open spec fn add_spec(self, rhs: Vector) -> Vector {
        Vector((self.0 + rhs.0) as i32, (self.1 + rhs.1) as i32)
    }
}

impl std::ops::AddAssign<Vector> for Vector {
    fn add_assign(&mut self, rhs: Vector)
        requires
            Vector::fits(old(self).0 + rhs.0, old(self).1 + rhs.1),
        ensures
            final(self).0 == old(self).0 + rhs.0,
            final(self).1 == old(self).1 + rhs.1,
    {
        self.0 = self.0 + rhs.0;
        self.1 = self.1 + rhs.1;
    }
}

impl std::ops::Mul<i32> for Vector {
    type Output = Vector;

    fn mul(self, rhs: i32) -> (product: Vector) {
        Vector(self.0 * rhs, self.1 * rhs)
    }
}

impl vstd::std_specs::ops::MulSpecImpl<i32> for Vector {
    open spec fn obeys_mul_spec() -> bool {
        true
    }

    open spec fn mul_req(self, rhs: i32) -> bool {
        Vector::fits(self.0 * rhs, self.1 * rhs)
    }

    open spec fn mul_spec(self, rhs: i32) -> Vector {
        Vector((self.0 * rhs) as i32, (self.1 * rhs) as i32)
    }
}

/// Number of rows of a grid.
pub open spec fn grid_rows<T>(g: Seq<Seq<T>>) -> int {
    g.len() as int
}

/// Number of columns of a grid: the length of its first row, 0 without rows.
pub open spec fn grid_cols<T>(g: Seq<Seq<T>>) -> int {
    if g.len() > 0 {
        g[0].len() as int
    } else {
        0
    }
}

/// Every row of the grid is as long as the first.
pub open spec fn grid_rect<T>(g: Seq<Seq<T>>) -> bool {
    forall|r: int| 0 <= r < g.len() ==> (#[trigger] g[r]).len() == grid_cols(g)
}

/// Whether file `x` and rank `y` name a cell of the grid.
pub open spec fn grid_has<T>(g: Seq<Seq<T>>, x: int, y: int) -> bool {
    0 <= x < grid_cols(g) && 0 <= y < grid_rows(g)
}

/// The grid with the cell at file `x`, rank `y` replaced.
pub open spec fn grid_put<T>(g: Seq<Seq<T>>, x: int, y: int, value: T) -> Seq<Seq<T>> {
    g.update(y, g[y].update(x, value))
}

/// The grid of the given shape that holds `value` everywhere.
pub open spec fn grid_fill<T>(value: T, rows: int, cols: int) -> Seq<Seq<T>> {
    Seq::new(rows as nat, |r: int| Seq::new(cols as nat, |c: int| value))
}

/// Two grids have the same numbers of rows and columns, and are rectangular.
pub open spec fn same_shape<T, U>(g: Seq<Seq<T>>, h: Seq<Seq<U>>) -> bool {
    &&& grid_rect(g)
    &&& grid_rect(h)
    &&& grid_rows(g) == grid_rows(h)
    &&& grid_cols(g) == grid_cols(h)
}

/// A grid stored row by row: `self.0[rank][file]`.
pub struct Matrix<T>(pub Vec<Vec<T>>);

impl<T> View for Matrix<T> {
    type V = Seq<Seq<T>>;

    open spec fn view(&self) -> Seq<Seq<T>> {
        Seq::new(self.0@.len(), |r: int| self.0@[r]@)
    }
}

impl<T: Copy> Matrix<T> {
    /// A grid is well formed when it is rectangular and its sides stay
    /// within `MAX_SIDE`.
    pub open spec fn wf(&self) -> bool {
        &&& grid_rect(self@)
        &&& grid_rows(self@) <= MAX_SIDE
        &&& grid_cols(self@) <= MAX_SIDE
    }

    /// The cell at file `x`, rank `y`.
    pub open spec fn at(&self, x: int, y: int) -> T {
        self@[y][x]
    }

    /// A grid of `rows` rows and `cols` columns with `value` in every
    /// cell.
    pub fn new(value: T, rows: usize, cols: usize) -> (m: Matrix<T>)
        ensures
            m@ == grid_fill(value, rows as int, cols as int),
    {
        let mut grid: Vec<Vec<T>> = Vec::new();
        let mut r: usize = 0;
        while r < rows
            invariant
                r <= rows,
                grid@.len() == r,
                forall|i: int|
                    0 <= i < r ==> (#[trigger] grid@[i])@ == Seq::new(cols as nat, |c: int| value),
            decreases rows - r,
        {
            let mut row: Vec<T> = Vec::new();
            let mut c: usize = 0;
            while c < cols
                invariant
                    c <= cols,
                    row@.len() == c,
                    forall|j: int| 0 <= j < c ==> #[trigger] row@[j] == value,
                decreases cols - c,
            {
                row.push(value);
                c += 1;
            }
            assert(row@ =~= Seq::new(cols as nat, |c: int| value));
            grid.push(row);
            r += 1;
        }
        let m = Matrix(grid);
        assert(m@ =~= grid_fill(value, rows as int, cols as int));
        m
    }

    /// Rows and columns, in this order.
    pub fn shape(&self) -> (s: (usize, usize))
        ensures
            s.0 == grid_rows(self@),
            s.1 == grid_cols(self@),
    {
        let rows = self.0.len();
        if rows == 0 {
            (0, 0)
        } else {
            (rows, self.0[0].len())
        }
    }

    /// Whether `pos` names a cell of the grid.
    pub fn in_bounds(&self, pos: &Vector) -> (b: bool)
        ensures
            b == grid_has(self@, pos.0 as int, pos.1 as int),
    {
        let (rows, cols) = self.shape();
        pos.0 >= 0 && pos.1 >= 0 && (pos.0 as usize) < cols && (pos.1 as usize) < rows
    }

    /// The value in the cell at `pos`.
    pub fn get(&self, pos: &Vector) -> (value: T)
        requires
            grid_rect(self@),
            grid_has(self@, pos.0 as int, pos.1 as int),
        ensures
            value == self.at(pos.0 as int, pos.1 as int),
    {
        assert(self@[pos.1 as int].len() == grid_cols(self@));
        self.0[pos.1 as usize][pos.0 as usize]
    }

    /// Overwrites the cell at `pos`.
    pub fn put(&mut self, pos: &Vector, value: T)
        requires
            grid_rect(old(self)@),
            grid_has(old(self)@, pos.0 as int, pos.1 as int),
        ensures
            final(self)@ == grid_put(old(self)@, pos.0 as int, pos.1 as int, value),
    {
        assert(self@[pos.1 as int].len() == grid_cols(self@));
        self.0[pos.1 as usize][pos.0 as usize] = value;
        assert(self@ =~~= grid_put(old(self)@, pos.0 as int, pos.1 as int, value));
    }
}

impl<T> std::ops::Index<&Vector> for Matrix<T> {
    type Output = T;

    /// `grid[&pos]` is the cell at `pos`.
    fn index(&self, pos: &Vector) -> (value: &T)
        ensures
            *value == self@[pos.1 as int][pos.0 as int],
    {
        assert(self@[pos.1 as int].len() == grid_cols(self@));
        &self.0[pos.1 as usize][pos.0 as usize]
    }
}

impl<T> vstd::std_specs::core::IndexSpecImpl<&Vector> for Matrix<T> {
    open spec fn index_req(&self, pos: &&Vector) -> bool {
        grid_rect(self@) && grid_has(self@, pos.0 as int, pos.1 as int)
    }
}

impl<T> std::ops::IndexMut<&Vector> for Matrix<T> {
    /// `grid[&pos] = value` overwrites the cell at `pos`.
    fn index_mut(&mut self, pos: &Vector) -> (value: &mut T)
        requires
            grid_rect(old(self)@),
            grid_has(old(self)@, pos.0 as int, pos.1 as int),
        ensures
            *value == old(self)@[pos.1 as int][pos.0 as int],
            final(self)@ == grid_put(old(self)@, pos.0 as int, pos.1 as int, *final(value)),
    {
        assert(self@[pos.1 as int].len() == grid_cols(self@));
        &mut self.0[pos.1 as usize][pos.0 as usize]
    }
}

impl<T: Copy> Matrix<T> {
    /// Whether the grid is well formed.
    pub fn is_wf(&self) -> (b: bool)
        ensures
            b == self.wf(),
    {
        let rows = self.0.len();
        if rows > MAX_SIDE {
            return false;
        }
        if rows == 0 {
            return true;
        }
        let cols = self.0[0].len();
        if cols > MAX_SIDE {
            return false;
        }
        let mut r: usize = 0;
        while r < rows
            invariant
                r <= rows,
                rows == grid_rows(self@),
                cols == grid_cols(self@),
                forall|i: int| 0 <= i < r ==> (#[trigger] self@[i]).len() == cols,
            decreases rows - r,
        {
            if self.0[r].len() != cols {
                assert(self@[r as int].len() != grid_cols(self@));
                return false;
            }
            r += 1;
        }
        true
    }
}

/// Whether two well-formed masks mark the same cells of the same shape.
pub fn same_marks(a: &Matrix<bool>, b: &Matrix<bool>) -> (same: bool)
    requires
        a.wf(),
        b.wf(),
    ensures
        same == (a@ == b@),
{
    let (rows, cols) = a.shape();
    let (other_rows, other_cols) = b.shape();
    if rows != other_rows || cols != other_cols {
        return false;
    }
    let mut row: usize = 0;
    while row < rows
        invariant
            row <= rows,
            a.wf(),
            b.wf(),
            rows == grid_rows(a@),
            cols == grid_cols(a@),
            rows == grid_rows(b@),
            cols == grid_cols(b@),
            forall|x: int, y: int| 0 <= x < cols && 0 <= y < row ==> a@[y][x] == b@[y][x],
        decreases rows - row,
    {
        let mut col: usize = 0;
        while col < cols
            invariant
                row < rows,
                col <= cols,
                a.wf(),
                b.wf(),
                rows == grid_rows(a@),
                cols == grid_cols(a@),
                rows == grid_rows(b@),
                cols == grid_cols(b@),
                forall|x: int, y: int|
                    0 <= x < cols && (0 <= y < row || (y == row && x < col)) ==> a@[y][x]
                        == b@[y][x],
            decreases cols - col,
        {
            let at = Vector(col as i32, row as i32);
            if a.get(&at) != b.get(&at) {
                assert(a@[row as int][col as int] != b@[row as int][col as int]);
                return false;
            }
            col += 1;
        }
        row += 1;
    }
    assert forall|y: int| 0 <= y < rows implies #[trigger] a@[y] == b@[y] by {
        assert(a@[y].len() == cols && b@[y].len() == cols);
        assert(a@[y] =~= b@[y]);
    }
    assert(a@ =~= b@);
    true
}

impl<T: Copy> Clone for Matrix<T> {
    fn clone(&self) -> (copy: Matrix<T>)
        ensures
            copy@ == self@,
    {
        let mut grid: Vec<Vec<T>> = Vec::new();
        let mut r: usize = 0;
        while r < self.0.len()
            invariant
                r <= self.0@.len(),
                grid@.len() == r,
                forall|i: int| 0 <= i < r ==> (#[trigger] grid@[i])@ == self.0@[i]@,
            decreases self.0@.len() - r,
        {
            let mut row: Vec<T> = Vec::new();
            let mut c: usize = 0;
            while c < self.0[r].len()
                invariant
                    r < self.0@.len(),
                    c <= self.0@[r as int]@.len(),
                    row@.len() == c,
                    forall|j: int| 0 <= j < c ==> #[trigger] row@[j] == self.0@[r as int]@[j],
                decreases self.0@[r as int]@.len() - c,
            {
                row.push(self.0[r][c]);
                c += 1;
            }
            assert(row@ =~= self.0@[r as int]@);
            grid.push(row);
            r += 1;
        }
        let copy = Matrix(grid);
        assert(copy@ =~= self@);
        copy
    }
}

/// Whether any cell of the mask is marked.
pub fn any_marked(mask: &Matrix<bool>) -> (b: bool)
    requires
        mask.wf(),
    ensures
        b == exists|x: int, y: int| grid_has(mask@, x, y) && mask.at(x, y),
{
    let (rows, cols) = mask.shape();
    let mut row: usize = 0;
    while row < rows
        invariant
            row <= rows,
            rows == grid_rows(mask@),
            cols == grid_cols(mask@),
            mask.wf(),
            forall|x: int, y: int| grid_has(mask@, x, y) && y < row ==> !mask.at(x, y),
        decreases rows - row,
    {
        let mut col: usize = 0;
        while col < cols
            invariant
                row < rows,
                col <= cols,
                rows == grid_rows(mask@),
                cols == grid_cols(mask@),
                mask.wf(),
                forall|x: int, y: int|
                    grid_has(mask@, x, y) && (y < row || (y == row && x < col)) ==> !mask.at(x, y),
            decreases cols - col,
        {
            let at = Vector(col as i32, row as i32);
            if mask.get(&at) {
                assert(grid_has(mask@, col as int, row as int) && mask.at(col as int, row as int));
                return true;
            }
            col += 1;
        }
        row += 1;
    }
    false
}

/// A filled grid is rectangular, has the shape it was made with, and holds
/// the value in every cell.
pub proof fn lemma_grid_fill<T>(value: T, rows: int, cols: int)
    requires
        0 <= rows,
        0 <= cols,
    ensures
        grid_rect(grid_fill(value, rows, cols)),
        grid_rows(grid_fill(value, rows, cols)) == rows,
        grid_cols(grid_fill(value, rows, cols)) == if rows > 0 {
            cols
        } else {
            0
        },
        forall|x: int, y: int|
            0 <= x < cols && 0 <= y < rows ==> #[trigger] grid_fill(value, rows, cols)[y][x]
                == value,
{
}

/// Putting a value into a cell of a rectangular grid keeps the shape, sets
/// that cell and leaves every other cell alone.
pub proof fn lemma_grid_put<T>(g: Seq<Seq<T>>, x: int, y: int, value: T)
    requires
        grid_rect(g),
        grid_has(g, x, y),
    ensures
        grid_rect(grid_put(g, x, y, value)),
        grid_rows(grid_put(g, x, y, value)) == grid_rows(g),
        grid_cols(grid_put(g, x, y, value)) == grid_cols(g),
        grid_put(g, x, y, value)[y][x] == value,
        forall|c: int, r: int|
            grid_has(g, c, r) && !(c == x && r == y) ==> #[trigger] grid_put(g, x, y, value)[r][c]
                == g[r][c],
{
    let h = grid_put(g, x, y, value);
    assert forall|r: int| 0 <= r < h.len() implies (#[trigger] h[r]).len() == grid_cols(h) by {
        assert(g[r].len() == grid_cols(g));
        assert(g[0].len() == grid_cols(g));
    }
}

} // verus!

verus! {

/// The kind of the piece that starts on file `x` of a player's back rank.
pub open spec fn back_rank(x: int) -> Kind {
    if x == 0 || x == 7 {
        Kind::Rook
    } else if x == 1 || x == 6 {
        Kind::Knight
    } else if x == 2 || x == 5 {
        Kind::Bishop
    } else if x == 3 {
        Kind::Queen
    } else {
        Kind::King
    }
}

/// The piece that starts on file `x`, rank `y` of the standard board:
/// player 1 on ranks 0 and 1, player 2 on ranks 6 and 7, pawns in front.
pub open spec fn standard_piece(x: int, y: int) -> Piece {
    if y == 0 {
        Piece { kind: back_rank(x), owner: 1, has_moved: false }
    } else if y == 1 {
        Piece { kind: Kind::Pawn, owner: 1, has_moved: false }
    } else if y == 6 {
        Piece { kind: Kind::Pawn, owner: 2, has_moved: false }
    } else if y == 7 {
        Piece { kind: back_rank(x), owner: 2, has_moved: false }
    } else {
        vacant()
    }
}

/// The standard starting position: eight ranks of eight files.
pub open spec fn standard_grid() -> Seq<Seq<Piece>> {
    Seq::new(8, |y: int| Seq::new(8, |x: int| standard_piece(x, y)))
}

/// The chess board: a grid of pieces in which an unoccupied square holds
/// the vacant piece.
pub struct Board(pub Matrix<Piece>);

impl View for Board {
    type V = Seq<Seq<Piece>>;

    open spec fn view(&self) -> Seq<Seq<Piece>> {
        self.0@
    }
}

fn back_rank_kind(file: usize) -> (kind: Kind)
    requires
        file < 8,
    ensures
        kind == back_rank(file as int),
{
    if file == 0 || file == 7 {
        Kind::Rook
    } else if file == 1 || file == 6 {
        Kind::Knight
    } else if file == 2 || file == 5 {
        Kind::Bishop
    } else if file == 3 {
        Kind::Queen
    } else {
        Kind::King
    }
}

impl std::ops::Index<&Vector> for Board {
    type Output = Piece;

    /// `board[&pos]` is the piece on the square at `pos`.
    fn index(&self, pos: &Vector) -> (piece: &Piece)
        ensures
            *piece == self.at(pos.0 as int, pos.1 as int),
    {
        self.get(pos)
    }
}

impl vstd::std_specs::core::IndexSpecImpl<&Vector> for Board {
    open spec fn index_req(&self, pos: &&Vector) -> bool {
        grid_rect(self@) && grid_has(self@, pos.0 as int, pos.1 as int)
    }
}

impl std::ops::IndexMut<&Vector> for Board {
    /// `board[&pos] = piece` replaces the piece on the square at `pos`.
    fn index_mut(&mut self, pos: &Vector) -> (piece: &mut Piece)
        requires
            grid_rect(old(self)@),
            grid_has(old(self)@, pos.0 as int, pos.1 as int),
        ensures
            *piece == old(self).at(pos.0 as int, pos.1 as int),
            final(self)@ == grid_put(old(self)@, pos.0 as int, pos.1 as int, *final(piece)),
    {
        assert(self.0@[pos.1 as int].len() == grid_cols(self.0@));
        &mut self.0.0[pos.1 as usize][pos.0 as usize]
    }
}

impl Clone for Board {
    fn clone(&self) -> (copy: Board)
        ensures
            copy@ == self@,
    {
        Board(self.0.clone())
    }
}

impl Board {
    /// The piece on file `x`, rank `y`.
    pub open spec fn at(&self, x: int, y: int) -> Piece {
        self@[y][x]
    }

    /// A board of the given shape with every square unoccupied.
    pub fn new(rows: usize, cols: usize) -> (board: Board)
        ensures
            board@ == grid_fill(vacant(), rows as int, cols as int),
    {
        Board(Matrix::new(Piece::new(), rows, cols))
    }

    /// The standard starting position.
    pub fn standard() -> (board: Board)
        ensures
            board@ == standard_grid(),
    {
        let mut board = Board::new(8, 8);
        let mut i: usize = 0;
        while i < 8
            invariant
                i <= 8,
                grid_rect(board@),
                grid_rows(board@) == 8,
                grid_cols(board@) == 8,
                forall|x: int, y: int|
                    0 <= x < 8 && 0 <= y < 8 ==> #[trigger] board@[y][x] == if x < i && (y == 0 || y
                        == 7) {
                        standard_piece(x, y)
                    } else {
                        vacant()
                    },
            decreases 8 - i,
        {
            let kind = back_rank_kind(i);
            board.set(Piece { kind, owner: 2, has_moved: false }, 7, i);
            board.set(Piece { kind, owner: 1, has_moved: false }, 0, i);
            i += 1;
        }
        let mut i: usize = 0;
        while i < 8
            invariant
                i <= 8,
                grid_rect(board@),
                grid_rows(board@) == 8,
                grid_cols(board@) == 8,
                forall|x: int, y: int|
                    0 <= x < 8 && 0 <= y < 8 ==> #[trigger] board@[y][x] == if y == 0 || y == 7
                        || (x < i && (y == 1 || y == 6)) {
                        standard_piece(x, y)
                    } else {
                        vacant()
                    },
            decreases 8 - i,
        {
            board.set(Piece { kind: Kind::Pawn, owner: 2, has_moved: false }, 6, i);
            board.set(Piece { kind: Kind::Pawn, owner: 1, has_moved: false }, 1, i);
            i += 1;
        }
        assert forall|y: int| 0 <= y < 8 implies #[trigger] board@[y] == Seq::new(
            8,
            |x: int| standard_piece(x, y),
        ) by {
            assert(board@[y].len() == grid_cols(board@));
            assert(board@[y] =~= Seq::new(8, |x: int| standard_piece(x, y)));
        }
        assert(board@ =~= standard_grid());
        board
    }

    /// Puts `piece` on the square in row `row`, column `col`.
    pub fn set(&mut self, piece: Piece, row: usize, col: usize)
        requires
            grid_rect(old(self)@),
            grid_has(old(self)@, col as int, row as int),
        ensures
            final(self)@ == grid_put(old(self)@, col as int, row as int, piece),
            grid_rect(final(self)@),
            grid_rows(final(self)@) == grid_rows(old(self)@),
            grid_cols(final(self)@) == grid_cols(old(self)@),
    {
        proof {
            lemma_grid_put(self@, col as int, row as int, piece);
        }
        assert(self.0@[row as int].len() == grid_cols(self.0@));
        self.0.0[row][col] = piece;
        assert(self@ =~~= grid_put(old(self)@, col as int, row as int, piece));
    }

    /// Whether `pos` names a square of the board.
    pub fn in_bounds(&self, pos: &Vector) -> (b: bool)
        ensures
            b == grid_has(self@, pos.0 as int, pos.1 as int),
    {
        self.0.in_bounds(pos)
    }

    /// Rows and columns, in this order.
    pub fn shape(&self) -> (s: (usize, usize))
        ensures
            s.0 == grid_rows(self@),
            s.1 == grid_cols(self@),
    {
        self.0.shape()
    }

    /// The piece on the square at `pos`.
    pub fn get(&self, pos: &Vector) -> (piece: &Piece)
        requires
            grid_rect(self@),
            grid_has(self@, pos.0 as int, pos.1 as int),
        ensures
            *piece == self.at(pos.0 as int, pos.1 as int),
    {
        assert(self.0@[pos.1 as int].len() == grid_cols(self.0@));
        &self.0.0[pos.1 as usize][pos.0 as usize]
    }

    /// Replaces the piece on the square at `pos`.
    pub fn put(&mut self, pos: &Vector, piece: Piece)
        requires
            grid_rect(old(self)@),
            grid_has(old(self)@, pos.0 as int, pos.1 as int),
        ensures
            final(self)@ == grid_put(old(self)@, pos.0 as int, pos.1 as int, piece),
            grid_rect(final(self)@),
            grid_rows(final(self)@) == grid_rows(old(self)@),
            grid_cols(final(self)@) == grid_cols(old(self)@),
    {
        proof {
            lemma_grid_put(self@, pos.0 as int, pos.1 as int, piece);
        }
        self.0.put(pos, piece);
    }
}

} // verus!
