//! The rules of movement, stated over a position: which squares a piece of
//! each kind may move to and which it threatens, when a move exposes the
//! mover's king, and how a player's situation is classified.

use crate::board::{
    grid_cols, grid_has, grid_put, grid_rect, grid_rows, lemma_grid_put, Vector, MAX_SIDE,
};
use crate::game::{Move, State};
use crate::piece::{vacant, Kind, Piece};
use vstd::prelude::*;

verus! {

/// What the rules read of a player: the direction its pawns advance in, the
/// last move it made, and where its king stands.
pub struct Seat {
    pub direction: Vector,
    pub recent_move: Option<Move>,
    pub king_pos: Vector,
}

/// All that the rules of movement depend on: the board, rank by rank, and
/// the seats of the players, player 1 first.
pub struct Position {
    pub board: Seq<Seq<Piece>>,
    pub seats: Seq<Seat>,
}

pub open spec fn abs_of(v: int) -> int {
    if v < 0 {
        -v
    } else {
        v
    }
}

pub open spec fn sgn(v: int) -> int {
    if v > 0 {
        1
    } else if v < 0 {
        -1
    } else {
        0
    }
}

/// The number of king steps that cover the displacement.
pub open spec fn reach(dx: int, dy: int) -> int {
    if abs_of(dx) >= abs_of(dy) {
        abs_of(dx)
    } else {
        abs_of(dy)
    }
}

/// The coordinate `j` steps from `a` in the direction of the sign `s`.
pub open spec fn step(a: int, s: int, j: int) -> int {
    if s > 0 {
        a + j
    } else if s < 0 {
        a - j
    } else {
        a
    }
}

/// One step along a rank or a file.
pub open spec fn unit_axis(d: Vector) -> bool {
    abs_of(d.0 as int) + abs_of(d.1 as int) == 1
}

/// One step in any of the eight directions.
pub open spec fn king_step(dx: int, dy: int) -> bool {
    reach(dx, dy) == 1
}

pub open spec fn knight_jump(dx: int, dy: int) -> bool {
    (abs_of(dx) == 1 && abs_of(dy) == 2) || (abs_of(dx) == 2 && abs_of(dy) == 1)
}

/// Whether a displacement lies along a rank or a file.
pub open spec fn straight(dx: int, dy: int) -> bool {
    (dx == 0) != (dy == 0)
}

/// Whether a displacement lies along a diagonal.
pub open spec fn diagonal(dx: int, dy: int) -> bool {
    dx != 0 && abs_of(dx) == abs_of(dy)
}

/// Whether a sliding piece of the given kind moves along the displacement.
pub open spec fn on_line(kind: Kind, dx: int, dy: int) -> bool {
    match kind {
        Kind::Rook => straight(dx, dy),
        Kind::Bishop => diagonal(dx, dy),
        Kind::Queen => straight(dx, dy) || diagonal(dx, dy),
        _ => false,
    }
}

/// Whether the displacement `(dx, dy)` is the king step `(sx, sy)` taken
/// one or more times.
pub open spec fn heads(sx: int, sy: int, dx: int, dy: int) -> bool {
    sgn(dx) == sx && sgn(dy) == sy && (straight(dx, dy) || diagonal(dx, dy))
}

/// The vector with the given coordinates.
pub open spec fn vector(x: int, y: int) -> Vector {
    Vector(x as i32, y as i32)
}

/// The directions in which a sliding piece of the given kind moves.
pub open spec fn line_directions(kind: Kind) -> Seq<Vector> {
    match kind {
        Kind::Rook => seq![vector(0, 1), vector(1, 0), vector(0, -1), vector(-1, 0)],
        Kind::Bishop => seq![vector(1, 1), vector(1, -1), vector(-1, -1), vector(-1, 1)],
        Kind::Queen => seq![
            vector(-1, -1),
            vector(-1, 0),
            vector(-1, 1),
            vector(0, -1),
            vector(0, 1),
            vector(1, -1),
            vector(1, 0),
            vector(1, 1),
        ],
        _ => Seq::empty(),
    }
}

/// A king's move of two squares along a rank or a file is a castle.
pub open spec fn castle_move(m: Move) -> bool {
    let dx = m.end.0 - m.start.0;
    let dy = m.end.1 - m.start.1;
    (abs_of(dx) == 2 && dy == 0) || (dx == 0 && abs_of(dy) == 2)
}

/// The direction to a pawn's right when it advances along `u`: `u` turned
/// by a quarter.
pub open spec fn side_of(u: Vector) -> (int, int) {
    (-(u.1 as int), u.0 as int)
}

/// The table of end states.
pub open spec fn classify(threatened: bool, can_move: bool) -> State {
    if threatened {
        if can_move {
            State::Check
        } else {
            State::Checkmate
        }
    } else {
        if can_move {
            State::Normal
        } else {
            State::Stalemate
        }
    }
}

/// Row-major order: whether square `(x, y)` is visited before `(cx, cy)`.
pub open spec fn precedes(x: int, y: int, cx: int, cy: int) -> bool {
    y < cy || (y == cy && x < cx)
}

impl Position {
    pub open spec fn rows(self) -> int {
        grid_rows(self.board)
    }

    pub open spec fn cols(self) -> int {
        grid_cols(self.board)
    }

    /// Whether `(x, y)` is a square of the board.
    pub open spec fn has(self, x: int, y: int) -> bool {
        grid_has(self.board, x, y)
    }

    pub open spec fn piece(self, x: int, y: int) -> Piece {
        self.board[y][x]
    }

    /// Whether `owner` is the number of a player.
    pub open spec fn has_seat(self, owner: usize) -> bool {
        1 <= owner <= self.seats.len()
    }

    pub open spec fn seat(self, owner: usize) -> Seat {
        self.seats[owner - 1]
    }

    /// The piece is the filler of an unoccupied square or belongs to a
    /// player.
    pub open spec fn admits(self, piece: Piece) -> bool {
        piece.is_vacant() || self.has_seat(piece.owner)
    }

    /// The seat's player advances along a rank or a file, its king
    /// position is on the board, and the piece of its last move, if it has
    /// made one, belongs to a player.
    pub open spec fn sound(self, seat: Seat) -> bool {
        &&& unit_axis(seat.direction)
        &&& self.has(seat.king_pos.0 as int, seat.king_pos.1 as int)
        &&& seat.recent_move matches Some(m) ==> self.has_seat(m.piece.owner)
    }

    /// The board is rectangular and not too large, every piece on it
    /// belongs to a player, and every seat is sound.
    pub open spec fn wf(self) -> bool {
        &&& grid_rect(self.board)
        &&& self.rows() <= MAX_SIDE
        &&& self.cols() <= MAX_SIDE
        &&& forall|x: int, y: int| self.has(x, y) ==> self.admits(#[trigger] self.piece(x, y))
        &&& forall|i: int| 0 <= i < self.seats.len() ==> self.sound(#[trigger] self.seats[i])
    }

    /// An unoccupied square of the board.
    pub open spec fn open_at(self, x: int, y: int) -> bool {
        self.has(x, y) && self.piece(x, y).kind == Kind::Empty
    }

    /// A square of the board that a piece of `owner` may land on: it is
    /// unoccupied or holds a piece of another owner.
    pub open spec fn lands(self, owner: usize, x: int, y: int) -> bool {
        self.has(x, y) && (self.piece(x, y).kind == Kind::Empty || self.piece(x, y).owner != owner)
    }

    /// A square of the board that holds a piece of another owner.
    pub open spec fn enemy_at(self, owner: usize, x: int, y: int) -> bool {
        self.has(x, y) && self.piece(x, y).kind != Kind::Empty && self.piece(x, y).owner != owner
    }

    // ---- sliding pieces ----

    /// The square `j` steps from `(px, py)` in direction `(sx, sy)` is an
    /// unoccupied square of the board.
    pub open spec fn ray_open(self, px: int, py: int, sx: int, sy: int, j: int) -> bool {
        self.open_at(step(px, sx, j), step(py, sy, j))
    }

    /// Every square strictly between `(px, py)` and `(tx, ty)`, along the
    /// line that joins them, is unoccupied.
    pub open spec fn clear_between(self, px: int, py: int, tx: int, ty: int) -> bool {
        forall|j: int|
            1 <= j < reach(tx - px, ty - py) ==> #[trigger] self.ray_open(
                px,
                py,
                sgn(tx - px),
                sgn(ty - py),
                j,
            )
    }

    /// A sliding piece of `kind` on `(px, py)` controls `(tx, ty)`: the
    /// square lies on one of its lines and nothing stands in between.
    pub open spec fn slide_threat(self, kind: Kind, px: int, py: int, tx: int, ty: int) -> bool {
        &&& self.has(tx, ty)
        &&& on_line(kind, tx - px, ty - py)
        &&& self.clear_between(px, py, tx, ty)
    }

    /// The ray from `(px, py)` in direction `(sx, sy)` arrives at the
    /// square `(tx, ty)` of the board with nothing in between.
    pub open spec fn ray_hits(self, sx: int, sy: int, px: int, py: int, tx: int, ty: int) -> bool {
        &&& self.has(tx, ty)
        &&& heads(sx, sy, tx - px, ty - py)
        &&& self.clear_between(px, py, tx, ty)
    }

    /// One of the first `n` directions gives a ray that arrives at
    /// `(tx, ty)`.
    pub open spec fn rays_hit(
        self,
        directions: Seq<Vector>,
        n: int,
        px: int,
        py: int,
        tx: int,
        ty: int,
    ) -> bool {
        exists|i: int|
            0 <= i < n && #[trigger] self.ray_hits(
                directions[i].0 as int,
                directions[i].1 as int,
                px,
                py,
                tx,
                ty,
            )
    }

    // ---- pawns ----

    /// The piece on `(ax, ay)` is a pawn of another owner than `owner`
    /// whose owner's last move was an advance of two squares that ended
    /// there.
    pub open spec fn en_passant_from(self, owner: usize, ax: int, ay: int) -> bool {
        &&& self.has(ax, ay)
        &&& self.piece(ax, ay).kind == Kind::Pawn
        &&& self.piece(ax, ay).owner != owner
        &&& self.has_seat(self.piece(ax, ay).owner)
        &&& self.seat(self.piece(ax, ay).owner).recent_move matches Some(m)
        &&& m.spec_square_dist() == 4
        &&& m.end.0 == ax
        &&& m.end.1 == ay
    }

    /// A pawn of `owner` on `(px, py)` may capture onto `(tx, ty)`, the
    /// square diagonally ahead on the side `(rx, ry)`: an enemy stands
    /// there, or the square beside the pawn holds a pawn that can be taken
    /// en passant and the target does not hold a piece of `owner`.
    pub open spec fn pawn_takes(
        self,
        owner: usize,
        px: int,
        py: int,
        rx: int,
        ry: int,
        tx: int,
        ty: int,
    ) -> bool {
        let u = self.seat(owner).direction;
        &&& tx == px + u.0 + rx
        &&& ty == py + u.1 + ry
        &&& self.lands(owner, tx, ty)
        &&& (self.enemy_at(owner, tx, ty) || self.en_passant_from(owner, px + rx, py + ry))
    }

    /// A pawn on `(px, py)` that advances along `u` may step onto
    /// `(tx, ty)`: the square ahead if it is unoccupied, and the square
    /// beyond it if the pawn has not moved and both are unoccupied.
    pub open spec fn pawn_steps(
        self,
        u: Vector,
        has_moved: bool,
        px: int,
        py: int,
        tx: int,
        ty: int,
    ) -> bool {
        ||| (tx == px + u.0 && ty == py + u.1 && self.open_at(tx, ty))
        ||| (tx == px + 2 * u.0 && ty == py + 2 * u.1 && self.open_at(px + u.0, py + u.1)
            && !has_moved && self.open_at(tx, ty))
    }

    pub open spec fn pawn_valid(self, px: int, py: int, tx: int, ty: int) -> bool {
        let me = self.piece(px, py);
        let u = self.seat(me.owner).direction;
        let r = side_of(u);
        ||| self.pawn_steps(u, me.has_moved, px, py, tx, ty)
        ||| self.pawn_takes(me.owner, px, py, r.0, r.1, tx, ty)
        ||| self.pawn_takes(me.owner, px, py, -r.0, -r.1, tx, ty)
    }

    /// A pawn controls the two squares diagonally ahead of it, whatever
    /// stands on them.
    pub open spec fn pawn_threat(self, px: int, py: int, tx: int, ty: int) -> bool {
        let u = self.seat(self.piece(px, py).owner).direction;
        let r = side_of(u);
        &&& self.has(tx, ty)
        &&& ((tx == px + u.0 + r.0 && ty == py + u.1 + r.1) || (tx == px + u.0 - r.0 && ty == py
            + u.1 - r.1))
    }

    // ---- threats ----

    /// What a piece of `kind`, other than a king, on `(px, py)` threatens.
    pub open spec fn plain_threat(self, kind: Kind, px: int, py: int, tx: int, ty: int) -> bool {
        match kind {
            Kind::Queen | Kind::Rook | Kind::Bishop => self.slide_threat(kind, px, py, tx, ty),
            Kind::Knight => self.has(tx, ty) && knight_jump(tx - px, ty - py),
            Kind::Pawn => self.pawn_threat(px, py, tx, ty),
            _ => false,
        }
    }

    /// The piece on `(sx, sy)` belongs to another owner than `owner` and
    /// threatens `(tx, ty)`. A king threatens the squares next to it.
    pub open spec fn menaces(self, owner: usize, sx: int, sy: int, tx: int, ty: int) -> bool {
        let attacker = self.piece(sx, sy);
        &&& self.has(sx, sy)
        &&& attacker.owner != owner
        &&& if attacker.kind == Kind::King {
            self.has(tx, ty) && king_step(tx - sx, ty - sy)
        } else {
            self.plain_threat(attacker.kind, sx, sy, tx, ty)
        }
    }

    /// Some piece of another owner than `owner` threatens `(tx, ty)`.
    pub open spec fn threatened(self, owner: usize, tx: int, ty: int) -> bool {
        exists|sx: int, sy: int| #[trigger] self.menaces(owner, sx, sy, tx, ty)
    }

    /// Some piece that row-major order visits before `(cx, cy)` menaces
    /// `(tx, ty)`.
    pub open spec fn menaced_before(
        self,
        owner: usize,
        cx: int,
        cy: int,
        tx: int,
        ty: int,
    ) -> bool {
        exists|sx: int, sy: int|
            precedes(sx, sy, cx, cy) && #[trigger] self.menaces(owner, sx, sy, tx, ty)
    }

    // ---- kings ----

    pub open spec fn friendly_rook(self, owner: usize, x: int, y: int) -> bool {
        self.piece(x, y).kind == Kind::Rook && self.piece(x, y).owner == owner
    }

    /// The square `j` steps from the king towards a rook lets the castle
    /// scan pass: it is on the board, not threatened, no rook of the
    /// king's owner, and empty unless it is the king's own square.
    pub open spec fn castle_passes(
        self,
        owner: usize,
        px: int,
        py: int,
        dx: int,
        dy: int,
        j: int,
    ) -> bool {
        let x = step(px, dx, j);
        let y = step(py, dy, j);
        &&& self.has(x, y)
        &&& !self.threatened(owner, x, y)
        &&& !self.friendly_rook(owner, x, y)
        &&& (j >= 1 ==> self.piece(x, y).kind == Kind::Empty)
    }

    /// The square `k` steps from the king holds an unmoved rook of the
    /// king's owner, neither it nor any square before it is threatened, and
    /// nothing stands between the king and the rook.
    pub open spec fn castle_rook_at(
        self,
        owner: usize,
        px: int,
        py: int,
        dx: int,
        dy: int,
        k: int,
    ) -> bool {
        let x = step(px, dx, k);
        let y = step(py, dy, k);
        &&& k >= 0
        &&& self.has(x, y)
        &&& self.friendly_rook(owner, x, y)
        &&& !self.piece(x, y).has_moved
        &&& !self.threatened(owner, x, y)
        &&& forall|j: int| 0 <= j < k ==> #[trigger] self.castle_passes(owner, px, py, dx, dy, j)
    }

    /// The piece on `(px, py)` may castle in direction `(dx, dy)`: it has
    /// not moved, it stands on its owner's back rank, and the scan from it
    /// reaches an unmoved rook of its owner.
    pub open spec fn can_castle(self, px: int, py: int, dx: int, dy: int) -> bool {
        let me = self.piece(px, py);
        let u = self.seat(me.owner).direction;
        &&& !self.has(px - u.0, py - u.1)
        &&& !me.has_moved
        &&& exists|k: int| #[trigger] self.castle_rook_at(me.owner, px, py, dx, dy, k)
    }

    pub open spec fn king_valid(self, px: int, py: int, tx: int, ty: int) -> bool {
        let me = self.piece(px, py);
        let r = side_of(self.seat(me.owner).direction);
        &&& self.lands(me.owner, tx, ty)
        &&& {
            ||| (king_step(tx - px, ty - py) && !self.threatened(me.owner, tx, ty))
            ||| (tx == px + 2 * r.0 && ty == py + 2 * r.1 && self.can_castle(px, py, r.0, r.1))
            ||| (tx == px - 2 * r.0 && ty == py - 2 * r.1 && self.can_castle(px, py, -r.0, -r.1))
        }
    }

    // ---- every kind ----

    /// The squares that a piece of `kind` on `(px, py)` may move to, before
    /// moves that expose its owner's king are taken out.
    pub open spec fn raw_valid(self, kind: Kind, px: int, py: int, tx: int, ty: int) -> bool {
        match kind {
            Kind::King => self.king_valid(px, py, tx, ty),
            Kind::Queen | Kind::Rook | Kind::Bishop => self.slide_threat(kind, px, py, tx, ty)
                && self.lands(self.piece(px, py).owner, tx, ty),
            Kind::Knight => knight_jump(tx - px, ty - py) && self.lands(
                self.piece(px, py).owner,
                tx,
                ty,
            ),
            Kind::Pawn => self.pawn_valid(px, py, tx, ty),
            Kind::Empty => false,
        }
    }

    /// The squares that a piece of `kind` on `(px, py)` reports as
    /// threatened. For a king these are the squares on which it is
    /// threatened by others, not the squares it attacks.
    pub open spec fn raw_threat(self, kind: Kind, px: int, py: int, tx: int, ty: int) -> bool {
        if kind == Kind::King {
            self.threatened(self.piece(px, py).owner, tx, ty)
        } else {
            self.plain_threat(kind, px, py, tx, ty)
        }
    }

    // ---- legality ----

    /// The position after the piece on `(sx, sy)` has been put on
    /// `(ex, ey)` and its own square vacated, nothing else changed.
    pub open spec fn relocated(self, sx: int, sy: int, ex: int, ey: int) -> Position {
        Position {
            board: grid_put(grid_put(self.board, ex, ey, self.piece(sx, sy)), sx, sy, vacant()),
            seats: self.seats,
        }
    }

    /// The square on which the king of `owner` stands after the relocation
    /// from `(sx, sy)` to `(ex, ey)`: `(ex, ey)` if the piece that moved
    /// stood on the recorded king position, else the recorded position.
    pub open spec fn king_square_after(
        self,
        owner: usize,
        sx: int,
        sy: int,
        ex: int,
        ey: int,
    ) -> (int, int) {
        let k = self.seat(owner).king_pos;
        if sx == k.0 && sy == k.1 {
            (ex, ey)
        } else {
            (k.0 as int, k.1 as int)
        }
    }

    /// After the relocation from `(sx, sy)` to `(ex, ey)`, some piece of
    /// another owner threatens the square on which the king of `owner`
    /// then stands.
    pub open spec fn exposes_king(self, owner: usize, sx: int, sy: int, ex: int, ey: int) -> bool {
        let after = self.relocated(sx, sy, ex, ey);
        let k = self.king_square_after(owner, sx, sy, ex, ey);
        after.threatened(owner, k.0, k.1)
    }

    /// The piece on `(sx, sy)` may move to `(tx, ty)`, and doing so does
    /// not expose its owner's king.
    pub open spec fn legal(self, sx: int, sy: int, tx: int, ty: int) -> bool {
        let me = self.piece(sx, sy);
        self.raw_valid(me.kind, sx, sy, tx, ty) && !self.exposes_king(me.owner, sx, sy, tx, ty)
    }

    // ---- side effects ----

    /// The square `j` steps from `(sx, sy)` is on the board and holds no
    /// rook.
    pub open spec fn no_rook_at(self, sx: int, sy: int, dx: int, dy: int, j: int) -> bool {
        self.has(step(sx, dx, j), step(sy, dy, j)) && self.piece(
            step(sx, dx, j),
            step(sy, dy, j),
        ).kind != Kind::Rook
    }

    /// The first rook in direction `(dx, dy)` from `(sx, sy)`, that square
    /// included, stands `k` steps away.
    pub open spec fn first_rook(self, sx: int, sy: int, dx: int, dy: int, k: int) -> bool {
        &&& k >= 0
        &&& self.has(step(sx, dx, k), step(sy, dy, k))
        &&& self.piece(step(sx, dx, k), step(sy, dy, k)).kind == Kind::Rook
        &&& forall|j: int| 0 <= j < k ==> #[trigger] self.no_rook_at(sx, sy, dx, dy, j)
    }

    /// The distance from `(sx, sy)` to the first rook in direction
    /// `(dx, dy)`.
    pub open spec fn rook_distance(self, sx: int, sy: int, dx: int, dy: int) -> int {
        choose|k: int| self.first_rook(sx, sy, dx, dy, k)
    }

    /// What the side effect of a king's move needs: if the move `m` is a
    /// castle, its start and the square next to it are on the board and a
    /// rook stands somewhere in the direction of the move.
    pub open spec fn king_effect_ready(self, m: Move) -> bool {
        let dx = sgn(m.end.0 - m.start.0);
        let dy = sgn(m.end.1 - m.start.1);
        castle_move(m) ==> {
            &&& self.has(m.start.0 as int, m.start.1 as int)
            &&& self.has(m.start.0 + dx, m.start.1 + dy)
            &&& exists|k: int|
                #[trigger] self.first_rook(m.start.0 as int, m.start.1 as int, dx, dy, k)
        }
    }

    /// The board after the side effect of a king's move `m`: for a castle,
    /// the first rook in the direction of the move stands next to the
    /// king's start, flagged as moved, and the rook's square is vacated.
    pub open spec fn king_effect(self, m: Move) -> Seq<Seq<Piece>> {
        let sx = m.start.0 as int;
        let sy = m.start.1 as int;
        let dx = sgn(m.end.0 - m.start.0);
        let dy = sgn(m.end.1 - m.start.1);
        if castle_move(m) {
            let k = self.rook_distance(sx, sy, dx, dy);
            let rook = self.piece(step(sx, dx, k), step(sy, dy, k));
            grid_put(
                grid_put(
                    self.board,
                    sx + dx,
                    sy + dy,
                    Piece { kind: rook.kind, owner: rook.owner, has_moved: true },
                ),
                step(sx, dx, k),
                step(sy, dy, k),
                vacant(),
            )
        } else {
            self.board
        }
    }

    /// The move `m` of a pawn that advances along `u` takes en passant: it
    /// is one diagonal step onto an unoccupied square.
    pub open spec fn takes_in_passing(self, m: Move) -> bool {
        self.piece(m.end.0 as int, m.end.1 as int).kind == Kind::Empty && m.spec_is_diag()
    }

    /// What the side effect of a pawn's move needs: the squares it reads
    /// and writes are on the board.
    pub open spec fn pawn_effect_ready(self, u: Vector, m: Move) -> bool {
        &&& self.has(m.end.0 as int, m.end.1 as int)
        &&& self.takes_in_passing(m) ==> self.has(m.end.0 - u.0, m.end.1 - u.1)
        &&& !self.has(m.end.0 + u.0, m.end.1 + u.1) ==> self.has(m.start.0 as int, m.start.1 as int)
    }

    /// The board after the side effect of the move `m` of a pawn that
    /// advances along `u`: taking en passant vacates the square behind the
    /// destination, and a pawn whose destination has no square ahead is
    /// replaced, on its start, by a queen of the same owner that counts as
    /// moved.
    pub open spec fn pawn_effect(self, u: Vector, m: Move) -> Seq<Seq<Piece>> {
        let taken = if self.takes_in_passing(m) {
            grid_put(self.board, m.end.0 - u.0, m.end.1 - u.1, vacant())
        } else {
            self.board
        };
        if !self.has(m.end.0 + u.0, m.end.1 + u.1) {
            grid_put(
                taken,
                m.start.0 as int,
                m.start.1 as int,
                Piece { kind: Kind::Queen, owner: m.piece.owner, has_moved: true },
            )
        } else {
            taken
        }
    }

    /// What the side effect of a move of a piece of `kind` from `(px, py)`
    /// needs. It reads the last move of the owner of the piece that stands
    /// on `(px, py)`.
    pub open spec fn effect_ready(self, kind: Kind, px: int, py: int) -> bool {
        let owner = self.piece(px, py).owner;
        kind == Kind::King || kind == Kind::Pawn ==> {
            &&& self.has(px, py)
            &&& self.has_seat(owner)
            &&& self.seat(owner).recent_move matches Some(m)
            &&& if kind == Kind::King {
                self.king_effect_ready(m)
            } else {
                self.pawn_effect_ready(self.seat(owner).direction, m)
            }
        }
    }

    /// The board after the side effect of a move of a piece of `kind` from
    /// `(px, py)`. Only kings and pawns have one.
    pub open spec fn after_effect(self, kind: Kind, px: int, py: int) -> Seq<Seq<Piece>> {
        let owner = self.piece(px, py).owner;
        match kind {
            Kind::King => self.king_effect(self.seat(owner).recent_move->0),
            Kind::Pawn => self.pawn_effect(
                self.seat(owner).direction,
                self.seat(owner).recent_move->0,
            ),
            _ => self.board,
        }
    }

    /// The position with another board.
    pub open spec fn with_board(self, board: Seq<Seq<Piece>>) -> Position {
        Position { board, seats: self.seats }
    }

    // ---- end states ----

    /// The piece on `(sx, sy)` has a legal move.
    pub open spec fn can_move(self, sx: int, sy: int) -> bool {
        exists|tx: int, ty: int| self.has(tx, ty) && #[trigger] self.legal(sx, sy, tx, ty)
    }

    /// The square holds a piece of player `id` that has a legal move.
    pub open spec fn mobile(self, id: usize, sx: int, sy: int) -> bool {
        self.has(sx, sy) && self.piece(sx, sy).owner == id && self.can_move(sx, sy)
    }

    pub open spec fn has_legal_moves(self, id: usize) -> bool {
        exists|sx: int, sy: int| #[trigger] self.mobile(id, sx, sy)
    }

    /// The square holds a king of player `id`.
    pub open spec fn king_of(self, id: usize, x: int, y: int) -> bool {
        self.has(x, y) && self.piece(x, y).kind == Kind::King && self.piece(x, y).owner == id
    }

    /// The square holds the king of player `id` that row-major order visits
    /// last, and that king is threatened.
    pub open spec fn checked_on(self, id: usize, x: int, y: int) -> bool {
        &&& self.king_of(id, x, y)
        &&& self.threatened(id, x, y)
        &&& forall|ox: int, oy: int| #[trigger] self.king_of(id, ox, oy) ==> !precedes(x, y, ox, oy)
    }

    /// The king of player `id` is threatened.
    pub open spec fn in_check(self, id: usize) -> bool {
        exists|x: int, y: int| #[trigger] self.checked_on(id, x, y)
    }

    /// Some square that row-major order visits before `(cx, cy)` holds a
    /// piece of player `id` that has a legal move.
    pub open spec fn mobile_before(self, id: usize, cx: int, cy: int) -> bool {
        exists|sx: int, sy: int| precedes(sx, sy, cx, cy) && #[trigger] self.mobile(id, sx, sy)
    }

    /// Of the squares visited before `(cx, cy)`, `(x, y)` is the last that
    /// holds a king of player `id`, and that king is threatened.
    pub open spec fn checked_within(self, id: usize, x: int, y: int, cx: int, cy: int) -> bool {
        &&& precedes(x, y, cx, cy)
        &&& self.king_of(id, x, y)
        &&& self.threatened(id, x, y)
        &&& forall|ox: int, oy: int|
            #[trigger] self.king_of(id, ox, oy) && precedes(ox, oy, cx, cy) ==> !precedes(
                x,
                y,
                ox,
                oy,
            )
    }

    pub open spec fn checked_before(self, id: usize, cx: int, cy: int) -> bool {
        exists|x: int, y: int| #[trigger] self.checked_within(id, x, y, cx, cy)
    }

    /// The end state of player `id`.
    pub open spec fn end_state(self, id: usize) -> State {
        classify(self.in_check(id), self.has_legal_moves(id))
    }
}

/// Whether the `i`-th of the directions leads along the displacement.
pub open spec fn led_by(directions: Seq<Vector>, i: int, dx: int, dy: int) -> bool {
    0 <= i < directions.len() && heads(directions[i].0 as int, directions[i].1 as int, dx, dy)
}

/// The rays of a sliding piece, taken together, arrive exactly at the
/// squares on its lines that nothing screens.
pub proof fn lemma_lines(p: Position, kind: Kind, px: int, py: int, tx: int, ty: int)
    ensures
        p.rays_hit(line_directions(kind), line_directions(kind).len() as int, px, py, tx, ty)
            == p.slide_threat(kind, px, py, tx, ty),
{
    let dirs = line_directions(kind);
    let n = dirs.len() as int;
    let dx = tx - px;
    let dy = ty - py;
    if p.slide_threat(kind, px, py, tx, ty) {
        assert forall|i: int| led_by(dirs, i, dx, dy) implies p.rays_hit(
            dirs,
            n,
            px,
            py,
            tx,
            ty,
        ) by {
            assert(p.ray_hits(dirs[i].0 as int, dirs[i].1 as int, px, py, tx, ty));
        }
        // one of the directions of the kind leads along the displacement
        assert(led_by(dirs, 0, dx, dy) || led_by(dirs, 1, dx, dy) || led_by(dirs, 2, dx, dy)
            || led_by(dirs, 3, dx, dy) || led_by(dirs, 4, dx, dy) || led_by(dirs, 5, dx, dy)
            || led_by(dirs, 6, dx, dy) || led_by(dirs, 7, dx, dy));
    }
    if p.rays_hit(dirs, n, px, py, tx, ty) {
        let i = choose|i: int|
            0 <= i < n && #[trigger] p.ray_hits(
                dirs[i].0 as int,
                dirs[i].1 as int,
                px,
                py,
                tx,
                ty,
            );
        assert(led_by(dirs, i, dx, dy));
    }
}

/// Relocating a piece between two squares of a well-formed position gives
/// a well-formed position of the same shape.
pub proof fn lemma_relocated_wf(p: Position, sx: int, sy: int, ex: int, ey: int)
    requires
        p.wf(),
        p.has(sx, sy),
        p.has(ex, ey),
    ensures
        p.relocated(sx, sy, ex, ey).wf(),
        p.relocated(sx, sy, ex, ey).rows() == p.rows(),
        p.relocated(sx, sy, ex, ey).cols() == p.cols(),
        forall|x: int, y: int|
            p.has(x, y) ==> #[trigger] p.relocated(sx, sy, ex, ey).piece(x, y) == if x == sx && y
                == sy {
                vacant()
            } else if x == ex && y == ey {
                p.piece(sx, sy)
            } else {
                p.piece(x, y)
            },
{
    let moved = p.piece(sx, sy);
    let mid = grid_put(p.board, ex, ey, moved);
    lemma_grid_put(p.board, ex, ey, moved);
    lemma_grid_put(mid, sx, sy, vacant());
    let q = p.relocated(sx, sy, ex, ey);
    assert forall|x: int, y: int| p.has(x, y) implies #[trigger] q.piece(x, y) == if x == sx && y
        == sy {
        vacant()
    } else if x == ex && y == ey {
        p.piece(sx, sy)
    } else {
        p.piece(x, y)
    } by {
        if !(x == sx && y == sy) && !(x == ex && y == ey) {
            assert(mid[y][x] == p.board[y][x]);
        }
    }
    assert forall|x: int, y: int| q.has(x, y) implies q.admits(#[trigger] q.piece(x, y)) by {
        assert(p.admits(p.piece(x, y)));
        assert(p.admits(p.piece(sx, sy)));
    }
    assert forall|i: int| 0 <= i < q.seats.len() implies q.sound(#[trigger] q.seats[i]) by {
        assert(p.sound(p.seats[i]));
    }
}

/// Only one distance is that of the first rook.
pub proof fn lemma_first_rook_unique(
    p: Position,
    sx: int,
    sy: int,
    dx: int,
    dy: int,
    j: int,
    k: int,
)
    requires
        p.first_rook(sx, sy, dx, dy, j),
        p.first_rook(sx, sy, dx, dy, k),
    ensures
        j == k,
{
    if j < k {
        assert(p.no_rook_at(sx, sy, dx, dy, j));
    }
    if k < j {
        assert(p.no_rook_at(sx, sy, dx, dy, k));
    }
}

/// Putting a piece that is vacant or belongs to a player on a square of a
/// well-formed position gives a well-formed position of the same shape.
pub proof fn lemma_put_wf(p: Position, x: int, y: int, piece: Piece)
    requires
        p.wf(),
        p.has(x, y),
        piece.is_vacant() || p.has_seat(piece.owner),
    ensures
        p.with_board(grid_put(p.board, x, y, piece)).wf(),
        p.with_board(grid_put(p.board, x, y, piece)).rows() == p.rows(),
        p.with_board(grid_put(p.board, x, y, piece)).cols() == p.cols(),
{
    lemma_grid_put(p.board, x, y, piece);
    let q = p.with_board(grid_put(p.board, x, y, piece));
    assert forall|c: int, r: int| q.has(c, r) implies q.admits(#[trigger] q.piece(c, r)) by {
        assert(p.admits(p.piece(c, r)));
    }
    assert forall|i: int| 0 <= i < q.seats.len() implies q.sound(#[trigger] q.seats[i]) by {
        assert(p.sound(p.seats[i]));
    }
}

/// Visiting one more square finds the piece on it, if it can move.
pub proof fn lemma_mobile_step(p: Position, id: usize, cx: int, cy: int)
    ensures
        p.mobile_before(id, cx + 1, cy) == (p.mobile_before(id, cx, cy) || p.mobile(id, cx, cy)),
{
    if p.mobile_before(id, cx + 1, cy) {
        let (sx, sy) = choose|sx: int, sy: int|
            precedes(sx, sy, cx + 1, cy) && #[trigger] p.mobile(id, sx, sy);
        if !(sx == cx && sy == cy) {
            assert(precedes(sx, sy, cx, cy) && p.mobile(id, sx, sy));
        }
    }
    if p.mobile_before(id, cx, cy) {
        let (sx, sy) = choose|sx: int, sy: int|
            precedes(sx, sy, cx, cy) && #[trigger] p.mobile(id, sx, sy);
        assert(precedes(sx, sy, cx + 1, cy) && p.mobile(id, sx, sy));
    }
    if p.mobile(id, cx, cy) {
        assert(precedes(cx, cy, cx + 1, cy) && p.mobile(id, cx, cy));
    }
}

/// The end of one rank is the start of the next.
pub proof fn lemma_mobile_row(p: Position, id: usize, cy: int)
    ensures
        p.mobile_before(id, 0, cy + 1) == p.mobile_before(id, p.cols(), cy),
{
    if p.mobile_before(id, 0, cy + 1) {
        let (sx, sy) = choose|sx: int, sy: int|
            precedes(sx, sy, 0, cy + 1) && #[trigger] p.mobile(id, sx, sy);
        assert(precedes(sx, sy, p.cols(), cy) && p.mobile(id, sx, sy));
    }
    if p.mobile_before(id, p.cols(), cy) {
        let (sx, sy) = choose|sx: int, sy: int|
            precedes(sx, sy, p.cols(), cy) && #[trigger] p.mobile(id, sx, sy);
        assert(precedes(sx, sy, 0, cy + 1) && p.mobile(id, sx, sy));
    }
}

/// Once every rank has been visited, every piece that can move has been
/// found.
pub proof fn lemma_mobile_all(p: Position, id: usize)
    ensures
        p.mobile_before(id, 0, p.rows()) == p.has_legal_moves(id),
{
    if p.mobile_before(id, 0, p.rows()) {
        let (sx, sy) = choose|sx: int, sy: int|
            precedes(sx, sy, 0, p.rows()) && #[trigger] p.mobile(id, sx, sy);
        assert(p.mobile(id, sx, sy));
    }
    if p.has_legal_moves(id) {
        let (sx, sy) = choose|sx: int, sy: int| #[trigger] p.mobile(id, sx, sy);
        assert(precedes(sx, sy, 0, p.rows()) && p.mobile(id, sx, sy));
    }
}

/// Visiting a square that holds a king of the player replaces what was
/// known of check by whether that king is threatened; any other square
/// changes nothing.
pub proof fn lemma_checked_step(p: Position, id: usize, cx: int, cy: int)
    ensures
        p.checked_before(id, cx + 1, cy) == if p.king_of(id, cx, cy) {
            p.threatened(id, cx, cy)
        } else {
            p.checked_before(id, cx, cy)
        },
{
    if p.checked_before(id, cx + 1, cy) {
        let (x, y) = choose|x: int, y: int| #[trigger] p.checked_within(id, x, y, cx + 1, cy);
        if p.king_of(id, cx, cy) {
            assert(!precedes(x, y, cx, cy));
        } else {
            assert(p.checked_within(id, x, y, cx, cy));
        }
    }
    if p.king_of(id, cx, cy) {
        if p.threatened(id, cx, cy) {
            assert(p.checked_within(id, cx, cy, cx + 1, cy));
        }
    } else if p.checked_before(id, cx, cy) {
        let (x, y) = choose|x: int, y: int| #[trigger] p.checked_within(id, x, y, cx, cy);
        assert(p.checked_within(id, x, y, cx + 1, cy));
    }
}

/// The end of one rank is the start of the next.
pub proof fn lemma_checked_row(p: Position, id: usize, cy: int)
    ensures
        p.checked_before(id, 0, cy + 1) == p.checked_before(id, p.cols(), cy),
{
    if p.checked_before(id, 0, cy + 1) {
        let (x, y) = choose|x: int, y: int| #[trigger] p.checked_within(id, x, y, 0, cy + 1);
        assert(p.checked_within(id, x, y, p.cols(), cy));
    }
    if p.checked_before(id, p.cols(), cy) {
        let (x, y) = choose|x: int, y: int| #[trigger] p.checked_within(id, x, y, p.cols(), cy);
        assert(p.checked_within(id, x, y, 0, cy + 1));
    }
}

/// Once every rank has been visited, what is known of check is whether
/// the player is in check.
pub proof fn lemma_checked_all(p: Position, id: usize)
    ensures
        p.checked_before(id, 0, p.rows()) == p.in_check(id),
{
    if p.checked_before(id, 0, p.rows()) {
        let (x, y) = choose|x: int, y: int| #[trigger] p.checked_within(id, x, y, 0, p.rows());
        assert(p.checked_on(id, x, y));
    }
    if p.in_check(id) {
        let (x, y) = choose|x: int, y: int| #[trigger] p.checked_on(id, x, y);
        assert(p.checked_within(id, x, y, 0, p.rows()));
    }
}

/// A king is never offered its own square.
pub proof fn lemma_king_leaves(p: Position, px: int, py: int)
    requires
        p.wf(),
        p.has_seat(p.piece(px, py).owner),
    ensures
        !p.king_valid(px, py, px, py),
{
    let owner = p.piece(px, py).owner;
    assert(p.sound(p.seats[owner - 1]));
}

/// What a side effect needs depends on the board alone.
pub proof fn lemma_effects_read_the_board(p: Position, q: Position, u: Vector, m: Move)
    requires
        p.board == q.board,
    ensures
        p.king_effect_ready(m) == q.king_effect_ready(m),
        p.pawn_effect_ready(u, m) == q.pawn_effect_ready(u, m),
{
    let sx = m.start.0 as int;
    let sy = m.start.1 as int;
    let dx = sgn(m.end.0 - m.start.0);
    let dy = sgn(m.end.1 - m.start.1);
    assert forall|k: int| p.first_rook(sx, sy, dx, dy, k) == q.first_rook(sx, sy, dx, dy, k) by {
        assert forall|j: int|
            p.no_rook_at(sx, sy, dx, dy, j) == q.no_rook_at(sx, sy, dx, dy, j) by {}
    }
    if p.king_effect_ready(m) && castle_move(m) {
        let k = choose|k: int| #[trigger] p.first_rook(sx, sy, dx, dy, k);
        assert(q.first_rook(sx, sy, dx, dy, k));
    }
    if q.king_effect_ready(m) && castle_move(m) {
        let k = choose|k: int| #[trigger] q.first_rook(sx, sy, dx, dy, k);
        assert(p.first_rook(sx, sy, dx, dy, k));
    }
}

} // verus!
