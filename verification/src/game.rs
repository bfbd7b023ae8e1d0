//! The game session: players, turn order, move application, end states and
//! history.

use crate::board::{
    grid_cols, grid_fill, grid_has, grid_put, grid_rect, grid_rows, lemma_grid_fill, same_shape,
    any_marked, same_marks, standard_grid, Board, Matrix, Vector,
};
use crate::piece::{vacant, Kind, Piece};
use crate::rules::{
    abs_of, castle_move, classify, king_step, lemma_checked_all, lemma_checked_row,
    lemma_checked_step, lemma_effects_read_the_board, lemma_king_leaves, lemma_mobile_all,
    lemma_mobile_row, lemma_mobile_step, lemma_put_wf, precedes, step, unit_axis, Position, Seat,
};
use vstd::prelude::*;

verus! {

/// A player's situation at the end of a halfmove.
#[derive(Clone, Copy, Debug, PartialEq, Eq, Structural)]
pub enum State {
    /// The king is threatened and a legal move exists.
    Check,
    /// The king is not threatened and no legal move exists.
    Stalemate,
    /// The king is threatened and no legal move exists.
    Checkmate,
    /// Neither threatened nor without moves.
    Normal,
}

/// A move of `piece`, as it was before the move, from `start` to `end`.
#[derive(Clone, Copy, Debug, PartialEq, Eq, Structural)]
pub struct Move {
    pub piece: Piece,
    pub start: Vector,
    pub end: Vector,
}

impl Move {
    /// The squared Euclidean length of the move.
    pub open spec fn spec_square_dist(self) -> int {
        (self.start.0 - self.end.0) * (self.start.0 - self.end.0) + (self.start.1 - self.end.1) * (
        self.start.1 - self.end.1)
    }

    /// One step along each axis.
    pub open spec fn spec_is_diag(self) -> bool {
        abs_of(self.end.0 - self.start.0) == 1 && abs_of(self.end.1 - self.start.1) == 1
    }

    /// The squared Euclidean length of the move, by which a pawn's advance
    /// of two squares is told: that one has length 4.
    pub fn square_dist(&self) -> (d: i32)
        requires
            self.spec_square_dist() <= i32::MAX,
        ensures
            d == self.spec_square_dist(),
    {
        let dx: i64 = self.start.0 as i64 - self.end.0 as i64;
        let dy: i64 = self.start.1 as i64 - self.end.1 as i64;
        proof {
            lemma_squares(dx as int, dy as int);
        }
        (dx * dx + dy * dy) as i32
    }

    /// Whether the move is one step along a diagonal.
    pub fn is_diag(&self) -> (b: bool)
        ensures
            b == self.spec_is_diag(),
    {
        let dx: i64 = self.end.0 as i64 - self.start.0 as i64;
        let dy: i64 = self.end.1 as i64 - self.start.1 as i64;
        (dx == 1 || dx == -1) && (dy == 1 || dy == -1)
    }

    /// Whether the move has squared length 4, computed without any
    /// product.
    pub fn is_double_step(&self) -> (b: bool)
        ensures
            b == (self.spec_square_dist() == 4),
    {
        let dx: i64 = self.start.0 as i64 - self.end.0 as i64;
        let dy: i64 = self.start.1 as i64 - self.end.1 as i64;
        proof {
            lemma_squares(dx as int, dy as int);
        }
        ((dx == 2 || dx == -2) && dy == 0) || (dx == 0 && (dy == 2 || dy == -2))
    }
}

/// Squares are not negative, a sum of two squares bounds each, and the
/// sum is 4 only for two steps along one axis.
pub proof fn lemma_squares(dx: int, dy: int)
    ensures
        dx * dx >= 0,
        dy * dy >= 0,
        dx * dx + dy * dy <= i32::MAX ==> -46341 < dx < 46341 && -46341 < dy < 46341,
        (dx * dx + dy * dy == 4) <==> ((abs_of(dx) == 2 && dy == 0) || (dx == 0 && abs_of(dy)
            == 2)),
{
    assert(dx * dx >= 0 && dy * dy >= 0) by (nonlinear_arith);
    assert(dx >= 46341 ==> dx * dx >= 46341 * 46341) by (nonlinear_arith);
    assert(dx <= -46341 ==> dx * dx >= 46341 * 46341) by (nonlinear_arith);
    assert(dy >= 46341 ==> dy * dy >= 46341 * 46341) by (nonlinear_arith);
    assert(dy <= -46341 ==> dy * dy >= 46341 * 46341) by (nonlinear_arith);
    assert(dx >= 3 || dx <= -3 ==> dx * dx >= 9) by (nonlinear_arith);
    assert(dy >= 3 || dy <= -3 ==> dy * dy >= 9) by (nonlinear_arith);
    assert(dx == 2 || dx == -2 ==> dx * dx == 4) by (nonlinear_arith);
    assert(dy == 2 || dy == -2 ==> dy * dy == 4) by (nonlinear_arith);
    assert(dx == 1 || dx == -1 ==> dx * dx == 1) by (nonlinear_arith);
    assert(dy == 1 || dy == -1 ==> dy * dy == 1) by (nonlinear_arith);
    assert(dx == 0 ==> dx * dx == 0) by (nonlinear_arith);
    assert(dy == 0 ==> dy * dy == 0) by (nonlinear_arith);
}

#[derive(Clone, Copy, Debug, PartialEq, Eq, Structural)]
pub struct Player {
    pub direction: Vector,
    pub recent_move: Option<Move>,
    pub state: State,
    pub king_pos: Vector,
}

impl Player {
    /// What the rules of movement read of the player.
    pub open spec fn seat(self) -> Seat {
        Seat { direction: self.direction, recent_move: self.recent_move, king_pos: self.king_pos }
    }
}

/// Everything that a move changes and a rewind restores.
pub struct GameState {
    pub board: Board,
    /// The player to move, counted from 1.
    pub turn: usize,
    pub halfmove_counter: u32,
    /// Player 1 first: `players[0]` controls the pieces of owner 1.
    pub players: Vec<Player>,
}

/// A game state as a plain value.
pub struct GameStateView {
    pub board: Seq<Seq<Piece>>,
    pub turn: usize,
    pub halfmove_counter: u32,
    pub players: Seq<Player>,
}

impl View for GameState {
    type V = GameStateView;

    open spec fn view(&self) -> GameStateView {
        GameStateView {
            board: self.board@,
            turn: self.turn,
            halfmove_counter: self.halfmove_counter,
            players: self.players@,
        }
    }
}

impl GameStateView {
    /// What the rules of movement read of the state.
    pub open spec fn position(self) -> Position {
        Position {
            board: self.board,
            seats: Seq::new(self.players.len(), |i: int| self.players[i].seat()),
        }
    }

    /// The position is well formed and the turn names a player.
    pub open spec fn wf(self) -> bool {
        self.position().wf() && 1 <= self.turn <= self.players.len()
    }
}

/// The board after the piece on `from` has been carried to `to`: `to`
/// holds what `from` held, `from` is vacant, and what now stands on `to`
/// counts as moved.
pub open spec fn carry_over(board: Seq<Seq<Piece>>, from: Vector, to: Vector) -> Seq<Seq<Piece>> {
    let moving = board[from.1 as int][from.0 as int];
    let lifted = grid_put(
        grid_put(board, to.0 as int, to.1 as int, moving),
        from.0 as int,
        from.1 as int,
        vacant(),
    );
    let arrived = lifted[to.1 as int][to.0 as int];
    grid_put(
        lifted,
        to.0 as int,
        to.1 as int,
        Piece { kind: arrived.kind, owner: arrived.owner, has_moved: true },
    )
}

/// Carrying a piece between two different squares of a rectangular board
/// keeps the shape, puts the piece on `to` as one that has moved, vacates
/// `from` and leaves every other square alone.
pub proof fn lemma_carry_over(board: Seq<Seq<Piece>>, from: Vector, to: Vector)
    requires
        grid_rect(board),
        grid_has(board, from.0 as int, from.1 as int),
        grid_has(board, to.0 as int, to.1 as int),
        from != to,
    ensures
        same_shape(carry_over(board, from, to), board),
        carry_over(board, from, to)[to.1 as int][to.0 as int] == (Piece {
            kind: board[from.1 as int][from.0 as int].kind,
            owner: board[from.1 as int][from.0 as int].owner,
            has_moved: true,
        }),
        carry_over(board, from, to)[from.1 as int][from.0 as int] == vacant(),
        forall|x: int, y: int|
            grid_has(board, x, y) && !(x == from.0 && y == from.1) && !(x == to.0 && y == to.1)
                ==> #[trigger] carry_over(board, from, to)[y][x] == board[y][x],
{
    let moving = board[from.1 as int][from.0 as int];
    let first = grid_put(board, to.0 as int, to.1 as int, moving);
    crate::board::lemma_grid_put(board, to.0 as int, to.1 as int, moving);
    let lifted = grid_put(first, from.0 as int, from.1 as int, vacant());
    crate::board::lemma_grid_put(first, from.0 as int, from.1 as int, vacant());
    let arrived = lifted[to.1 as int][to.0 as int];
    crate::board::lemma_grid_put(
        lifted,
        to.0 as int,
        to.1 as int,
        Piece { kind: arrived.kind, owner: arrived.owner, has_moved: true },
    );
    assert forall|x: int, y: int|
        grid_has(board, x, y) && !(x == from.0 && y == from.1) && !(x == to.0 && y
            == to.1) implies #[trigger] carry_over(board, from, to)[y][x] == board[y][x] by {
        assert(first[y][x] == board[y][x]);
        assert(lifted[y][x] == first[y][x]);
    }
}

impl GameStateView {
    /// The state once the player to move has recorded the move from `from`
    /// to `to` as its last move.
    pub open spec fn recorded(self, from: Vector, to: Vector) -> GameStateView {
        let mover = self.players[self.turn - 1];
        let piece = self.position().piece(from.0 as int, from.1 as int);
        GameStateView {
            players: self.players.update(
                self.turn - 1,
                Player { recent_move: Some(Move { piece, start: from, end: to }), ..mover },
            ),
            ..self
        }
    }

    /// What a move needs whatever the rules say of it: both squares are on
    /// the board, `from` holds a piece, the halfmove counter can still
    /// grow, and the side effect of the move stays on the board.
    pub open spec fn can_apply(self, from: Vector, to: Vector) -> bool {
        &&& self.wf()
        &&& self.halfmove_counter < u32::MAX
        &&& self.position().has(from.0 as int, from.1 as int)
        &&& self.position().has(to.0 as int, to.1 as int)
        &&& !self.position().piece(from.0 as int, from.1 as int).is_vacant()
        &&& self.recorded(from, to).position().effect_ready(
            self.position().piece(from.0 as int, from.1 as int).kind,
            from.0 as int,
            from.1 as int,
        )
    }

    /// The state after the move from `from` to `to`, before the end states
    /// are evaluated: the move is recorded for the player to move, the side
    /// effect of the piece's kind is applied, the piece is carried to `to`
    /// and flagged as moved, `from` is vacated, a king's new position is
    /// recorded for the player to move, the turn passes on and the
    /// halfmove counter grows by one.
    pub open spec fn carried(self, from: Vector, to: Vector) -> GameStateView {
        let noted = self.recorded(from, to);
        let kind = self.position().piece(from.0 as int, from.1 as int).kind;
        let shaken = noted.position().after_effect(kind, from.0 as int, from.1 as int);
        let board = carry_over(shaken, from, to);
        GameStateView {
            board,
            turn: ((self.turn as int) % (self.players.len() as int) + 1) as usize,
            halfmove_counter: (self.halfmove_counter + 1) as u32,
            players: if board[to.1 as int][to.0 as int].kind == Kind::King {
                noted.players.update(
                    self.turn - 1,
                    Player { king_pos: to, ..noted.players[self.turn - 1] },
                )
            } else {
                noted.players
            },
        }
    }

    /// The state with every player's end state evaluated on it.
    pub open spec fn judged(self) -> GameStateView {
        GameStateView {
            players: Seq::new(
                self.players.len(),
                |i: int|
                    Player {
                        state: self.position().end_state((i + 1) as usize),
                        ..self.players[i]
                    },
            ),
            ..self
        }
    }

    /// The state after the move from `from` to `to`.
    pub open spec fn applied(self, from: Vector, to: Vector) -> GameStateView {
        self.carried(from, to).judged()
    }
}

impl Clone for GameState {
    fn clone(&self) -> (copy: GameState)
        ensures
            copy@ == self@,
    {
        let mut players: Vec<Player> = Vec::new();
        let mut i: usize = 0;
        while i < self.players.len()
            invariant
                i <= self.players@.len(),
                players@.len() == i,
                forall|j: int| 0 <= j < i ==> #[trigger] players@[j] == self.players@[j],
            decreases self.players@.len() - i,
        {
            players.push(self.players[i]);
            i += 1;
        }
        assert(players@ =~= self.players@);
        GameState {
            board: self.board.clone(),
            turn: self.turn,
            halfmove_counter: self.halfmove_counter,
            players,
        }
    }
}

impl GameState {
    pub open spec fn position(&self) -> Position {
        self@.position()
    }

    pub open spec fn wf(&self) -> bool {
        self@.wf()
    }

    pub fn get_piece(&self, pos: &Vector) -> (piece: &Piece)
        requires
            grid_rect(self.board@),
            self.position().has(pos.0 as int, pos.1 as int),
        ensures
            *piece == self.position().piece(pos.0 as int, pos.1 as int),
    {
        self.board.get(pos)
    }

    pub fn get_player(&self, player_id: usize) -> (player: &Player)
        requires
            self.position().has_seat(player_id),
        ensures
            *player == self@.players[player_id - 1],
            player.seat() == self.position().seat(player_id),
    {
        &self.players[player_id - 1]
    }

    pub fn in_bounds(&self, pos: &Vector) -> (b: bool)
        ensures
            b == self.position().has(pos.0 as int, pos.1 as int),
    {
        self.board.in_bounds(pos)
    }

    /// Whether every piece on the well-formed board belongs to a player.
    fn pieces_have_seats(&self) -> (b: bool)
        requires
            self.board.0.wf(),
        ensures
            b == forall|x: int, y: int|
                self.position().has(x, y) ==> self.position().admits(
                    #[trigger] self.position().piece(x, y),
                ),
    {
        let ghost p = self.position();
        let (rows, cols) = self.board.shape();
        let count = self.players.len();
        let mut row: usize = 0;
        while row < rows
            invariant
                row <= rows,
                rows == p.rows(),
                cols == p.cols(),
                p == self.position(),
                self.board.0.wf(),
                count == p.seats.len(),
                forall|x: int, y: int|
                    p.has(x, y) && y < row ==> p.admits(#[trigger] p.piece(x, y)),
            decreases rows - row,
        {
            let mut col: usize = 0;
            while col < cols
                invariant
                    row < rows,
                    col <= cols,
                    rows == p.rows(),
                    cols == p.cols(),
                    p == self.position(),
                    self.board.0.wf(),
                    count == p.seats.len(),
                    forall|x: int, y: int|
                        p.has(x, y) && precedes(x, y, col as int, row as int) ==> p.admits(
                            #[trigger] p.piece(x, y),
                        ),
                decreases cols - col,
            {
                let piece = *self.board.get(&Vector(col as i32, row as i32));
                if piece.kind != Kind::Empty && (piece.owner < 1 || piece.owner > count) {
                    assert(p.has(col as int, row as int));
                    assert(!p.admits(p.piece(col as int, row as int)));
                    return false;
                }
                col += 1;
            }
            row += 1;
        }
        true
    }

    /// Whether every seat is sound.
    fn seats_are_sound(&self) -> (b: bool)
        ensures
            b == forall|i: int|
                0 <= i < self.position().seats.len() ==> self.position().sound(
                    #[trigger] self.position().seats[i],
                ),
    {
        let ghost p = self.position();
        let count = self.players.len();
        let mut i: usize = 0;
        while i < count
            invariant
                i <= count,
                count == p.seats.len(),
                p == self.position(),
                forall|j: int| 0 <= j < i ==> p.sound(#[trigger] p.seats[j]),
            decreases count - i,
        {
            let player = self.players[i];
            assert(p.seats[i as int] == player.seat());
            let d = player.direction;
            let along_axis = (d.0 == 0 && (d.1 == 1 || d.1 == -1)) || (d.1 == 0 && (d.0 == 1 || d.0
                == -1));
            let moved_by_player = match player.recent_move {
                Some(m) => 1 <= m.piece.owner && m.piece.owner <= count,
                None => true,
            };
            if !along_axis || !self.board.in_bounds(&player.king_pos) || !moved_by_player {
                assert(!p.sound(p.seats[i as int]));
                return false;
            }
            i += 1;
        }
        true
    }

    /// Whether the state is well formed.
    pub fn is_wf(&self) -> (b: bool)
        ensures
            b == self.wf(),
    {
        self.board.0.is_wf() && self.pieces_have_seats() && self.seats_are_sound() && 1
            <= self.turn && self.turn <= self.players.len()
    }

    /// Whether the side effect of the king's move `m` stays on the board.
    fn king_effect_ready(&self, m: &Move) -> (b: bool)
        requires
            self.board.0.wf(),
        ensures
            b == self.position().king_effect_ready(*m),
    {
        let ghost p = self.position();
        let start = m.start;
        let across: i64 = m.end.0 as i64 - start.0 as i64;
        let along: i64 = m.end.1 as i64 - start.1 as i64;
        let is_castle = ((across == 2 || across == -2) && along == 0) || (across == 0 && (along
            == 2 || along == -2));
        assert(is_castle == castle_move(*m));
        if !is_castle {
            return true;
        }
        if !self.board.in_bounds(&start) {
            return false;
        }
        let direction = Vector(
            if across > 0 {
                1
            } else if across < 0 {
                -1
            } else {
                0
            },
            if along > 0 {
                1
            } else if along < 0 {
                -1
            } else {
                0
            },
        );
        if !self.board.in_bounds(&(start + direction)) {
            return false;
        }
        let ghost sx = start.0 as int;
        let ghost sy = start.1 as int;
        let ghost dx = direction.0 as int;
        let ghost dy = direction.1 as int;
        let mut target = start;
        let ghost mut k: int = 0;
        loop
            invariant
                k >= 0,
                p == self.position(),
                self.board.0.wf(),
                king_step(dx, dy),
                dx == direction.0,
                dy == direction.1,
                sx == start.0,
                sy == start.1,
                castle_move(*m),
                start == m.start,
                dx == crate::rules::sgn(m.end.0 - m.start.0),
                dy == crate::rules::sgn(m.end.1 - m.start.1),
                p.has(sx, sy),
                p.has(sx + dx, sy + dy),
                target.0 == step(sx, dx, k),
                target.1 == step(sy, dy, k),
                p.has(target.0 as int, target.1 as int),
                forall|j: int| 0 <= j < k ==> #[trigger] p.no_rook_at(sx, sy, dx, dy, j),
            decreases p.rows() + p.cols() - k,
        {
            if self.board.get(&target).kind == Kind::Rook {
                assert(p.first_rook(sx, sy, dx, dy, k));
                return true;
            }
            assert(p.no_rook_at(sx, sy, dx, dy, k));
            target = target + direction;
            proof {
                k = k + 1;
            }
            if !self.board.in_bounds(&target) {
                assert forall|n: int| !#[trigger] p.first_rook(sx, sy, dx, dy, n) by {
                    if p.first_rook(sx, sy, dx, dy, n) {
                        if n < k {
                            assert(p.no_rook_at(sx, sy, dx, dy, n));
                        } else if n > k {
                            assert(p.no_rook_at(sx, sy, dx, dy, k));
                        }
                    }
                }
                return false;
            }
        }
    }

    /// Whether the side effect of the move `m` of a pawn that advances
    /// along `unit` stays on the board.
    fn pawn_effect_ready(&self, unit: Vector, m: &Move) -> (b: bool)
        requires
            self.board.0.wf(),
            unit_axis(unit),
        ensures
            b == self.position().pawn_effect_ready(unit, *m),
    {
        let end = m.end;
        if !self.board.in_bounds(&end) {
            return false;
        }
        let behind = Vector(end.0 - unit.0, end.1 - unit.1);
        let takes_in_passing = self.board.get(&end).kind == Kind::Empty && m.is_diag();
        if takes_in_passing && !self.board.in_bounds(&behind) {
            return false;
        }
        self.board.in_bounds(&(end + unit)) || self.board.in_bounds(&m.start)
    }

    /// Whether the move from `from` to `to` can be made whatever the rules
    /// say of it: the state is well formed, both squares are on the board,
    /// `from` holds a piece, the halfmove counter can still grow, and the
    /// side effect of the move stays on the board.
    pub fn applies(&self, from: &Vector, to: &Vector) -> (b: bool)
        ensures
            b == self@.can_apply(*from, *to),
    {
        if !self.is_wf() || self.halfmove_counter == u32::MAX || !self.board.in_bounds(from)
            || !self.board.in_bounds(to) {
            return false;
        }
        let piece = *self.board.get(from);
        if piece.kind == Kind::Empty {
            return false;
        }
        if piece.kind != Kind::King && piece.kind != Kind::Pawn {
            return true;
        }
        let ghost p = self.position();
        let ghost q = self@.recorded(*from, *to).position();
        assert(p.admits(p.piece(from.0 as int, from.1 as int)));
        let owner = self.players[piece.owner - 1];
        assert(p.seats[piece.owner - 1] == owner.seat());
        assert(p.sound(p.seats[piece.owner - 1]));
        assert(q.board == p.board);
        assert(q.seats[piece.owner - 1].direction == owner.direction);
        let last = if piece.owner == self.turn {
            Some(Move { piece, start: *from, end: *to })
        } else {
            owner.recent_move
        };
        assert(q.seats[piece.owner - 1].recent_move == last);
        match last {
            None => false,
            Some(m) => {
                proof {
                    lemma_effects_read_the_board(p, q, owner.direction, m);
                }
                if piece.kind == Kind::King {
                    self.king_effect_ready(&m)
                } else {
                    self.pawn_effect_ready(owner.direction, &m)
                }
            },
        }
    }

    /// Makes the move from `from` to `to` without asking whether the rules
    /// allow it, and evaluates every player's end state.
    pub fn apply(&mut self, from: &Vector, to: &Vector)
        requires
            old(self)@.can_apply(*from, *to),
        ensures
            final(self)@ == old(self)@.applied(*from, *to),
            final(self).wf(),
            same_shape(final(self).board@, old(self).board@),
    {
        let ghost before = self@;
        let mover = self.turn - 1;
        let count = self.players.len();
        let piece = *self.board.get(from);
        assert(self.position().seats[mover as int] == self.players@[mover as int].seat());
        assert(self.position().admits(self.position().piece(from.0 as int, from.1 as int)));
        // the move becomes the last move of the player to move
        let mut player = self.players[mover];
        player.recent_move = Some(Move { piece, start: *from, end: *to });
        self.players[mover] = player;
        let ghost noted = self@;
        assert(noted.players =~= before.recorded(*from, *to).players);
        assert(noted == before.recorded(*from, *to));
        assert(noted.position().wf()) by {
            let p = before.position();
            let q = noted.position();
            assert(q.board == p.board);
            assert forall|x: int, y: int| q.has(x, y) implies q.admits(
                #[trigger] q.piece(x, y),
            ) by {
                assert(p.admits(p.piece(x, y)));
            }
            assert forall|i: int| 0 <= i < q.seats.len() implies q.sound(
                #[trigger] q.seats[i],
            ) by {
                assert(p.sound(p.seats[i]));
            }
        }
        // what the move does beyond carrying the piece over
        piece.side_effects(from, self);
        let ghost shaken = self.position();
        // the piece is carried over and counts as moved
        let moving = *self.board.get(from);
        proof {
            assert(shaken.admits(shaken.piece(from.0 as int, from.1 as int)));
            lemma_put_wf(shaken, to.0 as int, to.1 as int, moving);
        }
        self.board.put(to, moving);
        proof {
            lemma_put_wf(self.position(), from.0 as int, from.1 as int, vacant());
        }
        self.board.put(from, Piece::new());
        let arrived = *self.board.get(to);
        let landed = Piece { kind: arrived.kind, owner: arrived.owner, has_moved: true };
        proof {
            let q = self.position();
            assert(q.admits(q.piece(to.0 as int, to.1 as int)));
            lemma_put_wf(q, to.0 as int, to.1 as int, landed);
        }
        self.board.put(to, landed);
        if landed.kind == Kind::King {
            let mut player = self.players[mover];
            player.king_pos = *to;
            self.players[mover] = player;
        }
        self.turn = self.turn % count + 1;
        self.halfmove_counter += 1;
        let ghost carried = self@;
        assert(carried.players =~= before.carried(*from, *to).players);
        assert(carried == before.carried(*from, *to));
        assert(carried.position().wf()) by {
            let q = carried.position();
            let r = shaken.with_board(q.board);
            assert forall|x: int, y: int| q.has(x, y) implies q.admits(
                #[trigger] q.piece(x, y),
            ) by {
                assert(r.admits(r.piece(x, y)));
            }
            assert forall|i: int| 0 <= i < q.seats.len() implies q.sound(
                #[trigger] q.seats[i],
            ) by {
                assert(shaken.sound(shaken.seats[i]));
            }
        }
        // every player's end state is evaluated on the new position
        let mut i: usize = 0;
        while i < count
            invariant
                i <= count,
                count == carried.players.len(),
                carried.position().wf(),
                carried.wf(),
                self@.board == carried.board,
                self@.turn == carried.turn,
                self@.halfmove_counter == carried.halfmove_counter,
                self@.players.len() == count,
                forall|j: int|
                    0 <= j < count ==> #[trigger] self@.players[j] == if j < i {
                        carried.judged().players[j]
                    } else {
                        carried.players[j]
                    },
            decreases count - i,
        {
            assert(self.position().seats =~= carried.position().seats);
            assert(self.position() == carried.position());
            let state = self.update_check(i + 1);
            let mut player = self.players[i];
            player.state = state;
            self.players[i] = player;
            i += 1;
        }
        assert(self@.players =~= carried.judged().players);
        assert(self.position().seats =~= carried.position().seats);
    }

    /// The end state of player `player_id`: whether its king is threatened
    /// and whether any of its pieces has a legal move, classified by the
    /// table of end states. Of several kings of the player, the one that
    /// row-major order visits last decides.
    pub fn update_check(&self, player_id: usize) -> (state: State)
        requires
            self.position().wf(),
        ensures
            state == self.position().end_state(player_id),
    {
        let ghost p = self.position();
        let (rows, cols) = self.board.shape();
        let mut is_threatened = false;
        let mut has_legal_moves = false;
        let mut row: usize = 0;
        while row < rows
            invariant
                row <= rows,
                rows == p.rows(),
                cols == p.cols(),
                p == self.position(),
                p.wf(),
                is_threatened == p.checked_before(player_id, 0, row as int),
                has_legal_moves == p.mobile_before(player_id, 0, row as int),
            decreases rows - row,
        {
            let mut col: usize = 0;
            while col < cols
                invariant
                    row < rows,
                    col <= cols,
                    rows == p.rows(),
                    cols == p.cols(),
                    p == self.position(),
                    p.wf(),
                    is_threatened == p.checked_before(player_id, col as int, row as int),
                    has_legal_moves == p.mobile_before(player_id, col as int, row as int),
                decreases cols - col,
            {
                let pos = Vector(col as i32, row as i32);
                let piece = *self.board.get(&pos);
                proof {
                    lemma_checked_step(p, player_id, col as int, row as int);
                    lemma_mobile_step(p, player_id, col as int, row as int);
                }
                if piece.owner == player_id {
                    let (valid, threat) = piece.claim_squares(&pos, self);
                    let (valid, threat) = piece.speculate(valid, threat, &pos, self);
                    if piece.kind == Kind::King {
                        proof {
                            lemma_king_leaves(p, col as int, row as int);
                        }
                        is_threatened = threat.get(&pos);
                        assert(is_threatened == threat.at(col as int, row as int));
                    }
                    let can_move = any_marked(&valid);
                    proof {
                        if can_move {
                            let (x, y) = choose|x: int, y: int|
                                grid_has(valid@, x, y) && valid.at(x, y);
                            assert(p.has(x, y) && p.legal(col as int, row as int, x, y));
                        }
                        if p.can_move(col as int, row as int) {
                            let (x, y) = choose|x: int, y: int|
                                p.has(x, y) && #[trigger] p.legal(col as int, row as int, x, y);
                            assert(grid_has(valid@, x, y) && valid.at(x, y));
                        }
                    }
                    if can_move {
                        has_legal_moves = true;
                    }
                }
                col += 1;
            }
            proof {
                lemma_checked_row(p, player_id, row as int);
                lemma_mobile_row(p, player_id, row as int);
            }
            row += 1;
        }
        proof {
            lemma_checked_all(p, player_id);
            lemma_mobile_all(p, player_id);
        }
        if is_threatened {
            if has_legal_moves {
                State::Check
            } else {
                State::Checkmate
            }
        } else {
            if has_legal_moves {
                State::Normal
            } else {
                State::Stalemate
            }
        }
    }
}

/// A game in progress: the state, the states before each move made so
/// far, and the selection.
pub struct Game {
    pub state: GameState,
    /// The state before each move, oldest first. A rewind goes back here.
    pub history: Vec<GameState>,
    /// The square of the piece that is armed to move, if any.
    pub selection: Option<Vector>,
    /// The squares that the armed piece may legally move to.
    pub valid: Matrix<bool>,
}

/// A game as a plain value.
pub struct GameView {
    pub state: GameStateView,
    pub history: Seq<GameStateView>,
    pub selection: Option<Vector>,
    pub valid: Seq<Seq<bool>>,
}

impl View for Game {
    type V = GameView;

    open spec fn view(&self) -> GameView {
        GameView {
            state: self.state@,
            history: Seq::new(self.history@.len(), |i: int| self.history@[i]@),
            selection: self.selection,
            valid: self.valid@,
        }
    }
}

/// The two players of a standard game: player 1 advances up the board from
/// rank 0, player 2 down from rank 7.
pub open spec fn standard_players() -> Seq<Player> {
    seq![
        Player {
            direction: Vector(0, 1),
            recent_move: None,
            state: State::Normal,
            king_pos: Vector(4, 0),
        },
        Player {
            direction: crate::rules::vector(0, -1),
            recent_move: None,
            state: State::Normal,
            king_pos: Vector(4, 7),
        },
    ]
}

/// The start of a standard game: player 1 to move, halfmove counter 1, no
/// history, nothing selected.
pub open spec fn standard_game() -> GameView {
    GameView {
        state: GameStateView {
            board: standard_grid(),
            turn: 1,
            halfmove_counter: 1,
            players: standard_players(),
        },
        history: Seq::empty(),
        selection: None,
        valid: grid_fill(false, 8, 8),
    }
}

impl GameView {
    /// The state is well formed, the mask has the board's shape, and so
    /// has the board of every well-formed state of the history.
    pub open spec fn wf(self) -> bool {
        &&& self.state.wf()
        &&& same_shape(self.valid, self.state.board)
        &&& forall|i: int|
            0 <= i < self.history.len() ==> (#[trigger] self.history[i]).wf() && same_shape(
                self.history[i].board,
                self.state.board,
            )
    }

    /// The mask of the legal moves of the piece on `pos`.
    pub open spec fn legal_mask(self, pos: Vector) -> Seq<Seq<bool>> {
        Seq::new(
            self.state.board.len(),
            |y: int|
                Seq::new(
                    grid_cols(self.state.board) as nat,
                    |x: int| self.state.position().legal(pos.0 as int, pos.1 as int, x, y),
                ),
        )
    }

    /// While a piece is armed, the mask holds its legal moves.
    pub open spec fn coherent(self) -> bool {
        self.selection matches Some(s) ==> self.state.position().has(s.0 as int, s.1 as int)
            && self.valid == self.legal_mask(s)
    }

    /// The game with nothing selected and no square marked.
    pub open spec fn cleared(self) -> GameView {
        GameView {
            selection: None,
            valid: grid_fill(false, grid_rows(self.valid), grid_cols(self.valid)),
            ..self
        }
    }

    /// The game with the mask showing the legal moves of the piece on
    /// `pos`.
    pub open spec fn shown(self, pos: Vector) -> GameView {
        GameView { valid: self.legal_mask(pos), ..self }
    }

    /// The game after the move from `from` to `to`, made without asking
    /// the rules: the state before the move joins the history.
    pub open spec fn moved(self, from: Vector, to: Vector) -> GameView {
        GameView {
            state: self.state.applied(from, to),
            history: self.history.push(self.state),
            ..self
        }
    }

    /// Whether an attempt to move the armed piece to `to` makes the move:
    /// a piece is armed, it belongs to the player to move, and the mask
    /// marks `to`.
    pub open spec fn will_move(self, to: Vector) -> bool {
        &&& self.selection matches Some(from)
        &&& self.state.turn == self.state.position().piece(from.0 as int, from.1 as int).owner
        &&& self.valid[to.1 as int][to.0 as int]
    }

    /// The game after an attempt to move the armed piece to `to`: the move
    /// is made if the piece belongs to the player to move and the mask
    /// marks `to`; either way nothing stays selected.
    pub open spec fn attempted(self, to: Vector) -> GameView {
        if self.will_move(to) {
            self.moved(self.selection->0, to).cleared()
        } else {
            self.cleared()
        }
    }

    /// The game after the square `pos` has been selected. With nothing
    /// armed, a piece of the player to move on `pos` is armed and its legal
    /// moves are shown; any other square leaves nothing armed. With a piece
    /// armed, the selection is an attempt to move it to `pos`.
    pub open spec fn selected(self, pos: Vector) -> GameView {
        if self.selection is None {
            let piece = self.state.position().piece(pos.0 as int, pos.1 as int);
            if !piece.is_vacant() && piece.owner == self.state.turn {
                GameView { selection: Some(pos), ..self.shown(pos) }
            } else {
                self.cleared()
            }
        } else {
            self.attempted(pos)
        }
    }

    /// The game after the moves of `moves`, each from its first square to
    /// its second, made in order without asking the rules.
    pub open spec fn played(self, moves: Seq<(Vector, Vector)>) -> GameView
        decreases moves.len(),
    {
        if moves.len() == 0 {
            self
        } else {
            self.played(moves.drop_last()).moved(moves.last().0, moves.last().1)
        }
    }

    /// How many states of the history a rewind by `halfmoves` keeps. A
    /// rewind by none goes back as far as a rewind by one.
    pub open spec fn rewind_depth(self, halfmoves: u32) -> int {
        if halfmoves == 0 {
            self.history.len() - 1
        } else {
            self.history.len() - halfmoves
        }
    }

    /// The game after a rewind by `halfmoves`: the state is the one that
    /// the history holds at the depth rewound to, the history ends before
    /// it, and nothing is selected.
    pub open spec fn rewound(self, halfmoves: u32) -> GameView {
        let depth = self.rewind_depth(halfmoves);
        GameView {
            state: self.history[depth],
            history: self.history.take(depth),
            selection: None,
            valid: grid_fill(false, grid_rows(self.valid), grid_cols(self.valid)),
        }
    }
}

impl Game {
    pub open spec fn wf(&self) -> bool {
        self@.wf()
    }

    pub open spec fn coherent(&self) -> bool {
        self@.coherent()
    }

    /// Whether the game is well formed.
    pub fn is_wf(&self) -> (b: bool)
        ensures
            b == self.wf(),
    {
        if !self.state.is_wf() || !self.valid.is_wf() {
            return false;
        }
        let shape = self.state.board.shape();
        let mask_shape = self.valid.shape();
        if mask_shape.0 != shape.0 || mask_shape.1 != shape.1 {
            return false;
        }
        let mut i: usize = 0;
        while i < self.history.len()
            invariant
                i <= self.history@.len(),
                self.state.wf(),
                same_shape(self.valid@, self.state.board@),
                shape.0 == grid_rows(self.state.board@),
                shape.1 == grid_cols(self.state.board@),
                forall|j: int|
                    0 <= j < i ==> (#[trigger] self@.history[j]).wf() && same_shape(
                        self@.history[j].board,
                        self.state.board@,
                    ),
            decreases self.history@.len() - i,
        {
            let past = &self.history[i];
            assert(past@ == self@.history[i as int]);
            if !past.is_wf() {
                return false;
            }
            let past_shape = past.board.shape();
            if past_shape.0 != shape.0 || past_shape.1 != shape.1 {
                return false;
            }
            i += 1;
        }
        true
    }

    /// Whether the mask holds the legal moves of the armed piece, if a
    /// piece is armed.
    pub fn is_coherent(&self) -> (b: bool)
        requires
            self.wf(),
        ensures
            b == self.coherent(),
    {
        match self.selection {
            None => true,
            Some(pos) => {
                if !self.state.in_bounds(&pos) {
                    return false;
                }
                let selected = *self.state.board.get(&pos);
                let (valid, threat) = selected.claim_squares(&pos, &self.state);
                let (valid, _) = selected.speculate(valid, threat, &pos, &self.state);
                proof {
                    let mask = self@.legal_mask(pos);
                    assert forall|y: int| 0 <= y < mask.len() implies #[trigger] valid@[y]
                        == mask[y] by {
                        assert(valid@[y].len() == grid_cols(valid@));
                        assert forall|x: int| 0 <= x < mask[y].len() implies valid@[y][x]
                            == mask[y][x] by {
                            assert(valid.at(x, y) == valid@[y][x]);
                        }
                        assert(valid@[y] =~= mask[y]);
                    }
                    assert(valid@ =~= mask);
                }
                same_marks(&self.valid, &valid)
            },
        }
    }

    /// A standard game of chess at its start.
    pub fn new() -> (game: Game)
        ensures
            game@ == standard_game(),
            game.wf(),
            game.coherent(),
    {
        let mut players: Vec<Player> = Vec::new();
        players.push(
            Player {
                direction: Vector(0, 1),
                recent_move: None,
                state: State::Normal,
                king_pos: Vector(4, 0),
            },
        );
        players.push(
            Player {
                direction: Vector(0, -1),
                recent_move: None,
                state: State::Normal,
                king_pos: Vector(4, 7),
            },
        );
        assert(players@ =~= standard_players());
        let game = Game {
            state: GameState { board: Board::standard(), turn: 1, halfmove_counter: 1, players },
            history: Vec::new(),
            selection: None,
            valid: Matrix::new(false, 8, 8),
        };
        proof {
            lemma_grid_fill(false, 8, 8);
            assert(game@.history =~= Seq::empty());
            let p = game.state.position();
            assert(grid_rect(p.board)) by {
                assert forall|r: int| 0 <= r < p.board.len() implies (#[trigger] p.board[r]).len()
                    == grid_cols(p.board) by {}
            }
            assert(p.seats[0].direction == Vector(0, 1));
            assert(p.seats[1].direction == crate::rules::vector(0, -1));
        }
        game
    }

    /// The player to move.
    pub fn current_player(&self) -> (player: &Player)
        requires
            1 <= self.state.turn <= self.state.players@.len(),
        ensures
            *player == self@.state.players[self.state.turn - 1],
    {
        self.state.get_player(self.state.turn)
    }

    /// Shows, in the mask, the legal moves of the piece on `pos`: what its
    /// kind claims, without the moves that expose its owner's king.
    pub fn show_moves(&mut self, pos: Vector)
        requires
            old(self).state.position().wf(),
            old(self).state.position().has(pos.0 as int, pos.1 as int),
        ensures
            final(self)@ == old(self)@.shown(pos),
    {
        let selected = *self.state.board.get(&pos);
        let (valid, threat) = selected.claim_squares(&pos, &self.state);
        let (valid, _) = selected.speculate(valid, threat, &pos, &self.state);
        self.valid = valid;
        proof {
            let mask = old(self)@.legal_mask(pos);
            assert forall|y: int| 0 <= y < mask.len() implies #[trigger] self.valid@[y]
                == mask[y] by {
                assert(self.valid@[y].len() == grid_cols(self.valid@));
                assert forall|x: int| 0 <= x < mask[y].len() implies self.valid@[y][x]
                    == mask[y][x] by {
                    assert(self.valid.at(x, y) == self.valid@[y][x]);
                }
                assert(self.valid@[y] =~= mask[y]);
            }
            assert(self.valid@ =~= mask);
        }
    }

    /// Drops the selection and clears the mask.
    pub fn deselect(&mut self)
        ensures
            final(self)@ == old(self)@.cleared(),
    {
        self.selection = None;
        let (rows, cols) = self.valid.shape();
        self.valid = Matrix::new(false, rows, cols);
    }

    /// Makes the move from `from` to `to` without asking whose turn it is
    /// or whether the rules allow the move. The state before the move joins
    /// the history; selection and mask are left as they are.
    pub fn move_piece_unchecked(&mut self, from: &Vector, to: &Vector)
        requires
            old(self).wf(),
            old(self)@.state.can_apply(*from, *to),
        ensures
            final(self)@ == old(self)@.moved(*from, *to),
            final(self).wf(),
    {
        let snapshot = self.state.clone();
        self.history.push(snapshot);
        self.state.apply(from, to);
        proof {
            assert(self@.history =~= old(self)@.history.push(old(self)@.state));
        }
    }

    /// Tries to move the armed piece to `pos`, and disarms it.
    pub fn move_piece(&mut self, pos: Vector)
        requires
            old(self).wf(),
            old(self).coherent(),
            old(self).selection is Some,
            old(self).state.position().has(pos.0 as int, pos.1 as int),
            old(self)@.will_move(pos) ==> old(self).state.halfmove_counter < u32::MAX,
        ensures
            final(self)@ == old(self)@.attempted(pos),
            final(self).wf(),
            final(self).coherent(),
    {
        let from = self.selection.unwrap();
        let is_turn = self.state.turn == self.state.board.get(&from).owner;
        let is_legal = self.valid.get(&pos);
        if is_turn && is_legal {
            proof {
                assert(self@.valid[pos.1 as int][pos.0 as int] == self@.state.position().legal(
                    from.0 as int,
                    from.1 as int,
                    pos.0 as int,
                    pos.1 as int,
                ));
                crate::laws::lemma_legal_move_applies(self@.state, from, pos);
            }
            self.move_piece_unchecked(&from, &pos);
        }
        self.deselect();
        proof {
            lemma_grid_fill(false, grid_rows(old(self)@.valid), grid_cols(old(self)@.valid));
        }
    }

    /// Selects the square `pos`. With nothing armed, a piece of the player
    /// to move is armed and its legal moves are shown. With a piece armed,
    /// the selection is the attempt to move it to `pos`.
    pub fn select(&mut self, pos: Vector)
        requires
            old(self).wf(),
            old(self).coherent(),
            old(self).state.position().has(pos.0 as int, pos.1 as int),
            old(self)@.will_move(pos) ==> old(self).state.halfmove_counter < u32::MAX,
        ensures
            final(self)@ == old(self)@.selected(pos),
            final(self).wf(),
            final(self).coherent(),
    {
        if self.selection.is_none() {
            self.deselect();
            proof {
                lemma_grid_fill(false, grid_rows(old(self)@.valid), grid_cols(old(self)@.valid));
            }
            let target = *self.state.board.get(&pos);
            if target.kind != Kind::Empty && target.owner == self.state.turn {
                self.selection = Some(pos);
                self.show_moves(pos);
            }
        } else {
            self.move_piece(pos);
        }
    }

    /// Goes back in the history. `rewind(1)` undoes the last move,
    /// `rewind(n)` the last `n`; `rewind(0)` does what `rewind(1)` does.
    pub fn rewind(&mut self, halfmoves: u32)
        requires
            old(self).wf(),
            old(self).history@.len() >= 1,
            halfmoves <= old(self).history@.len(),
        ensures
            final(self)@ == old(self)@.rewound(halfmoves),
            final(self).wf(),
            final(self).coherent(),
    {
        let target_time = self.history.len() - halfmoves as usize;
        let ghost depth = old(self)@.rewind_depth(halfmoves);
        if target_time < self.history.len() {
            self.history.truncate(target_time + 1);
        }
        let restored = self.history.pop().unwrap();
        self.state = restored;
        self.deselect();
        proof {
            lemma_grid_fill(false, grid_rows(old(self)@.valid), grid_cols(old(self)@.valid));
            assert(self@.history =~= old(self)@.history.take(depth));
            assert(self@.state == old(self)@.history[depth]);
        }
    }
}

} // verus!
