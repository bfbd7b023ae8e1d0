//! What follows from the rules: facts that relate several operations.

use crate::board::{grid_put, lemma_grid_put, same_shape, Vector};
use crate::game::{
    carry_over, lemma_carry_over, lemma_squares, GameStateView, GameView, Move, State,
};
use crate::piece::{vacant, Kind, Piece};
use crate::rules::{
    abs_of, castle_move, classify, lemma_first_rook_unique, lemma_relocated_wf, sgn, side_of, step,
    unit_axis, Position,
};
use vstd::prelude::*;

verus! {

/// A legal move of a piece of the player to move can be applied: its side
/// effect stays on the board.
pub proof fn lemma_legal_move_applies(state: GameStateView, from: Vector, to: Vector)
    requires
        state.wf(),
        state.halfmove_counter < u32::MAX,
        state.position().has(from.0 as int, from.1 as int),
        state.position().has(to.0 as int, to.1 as int),
        state.position().piece(from.0 as int, from.1 as int).owner == state.turn,
        state.position().legal(from.0 as int, from.1 as int, to.0 as int, to.1 as int),
    ensures
        state.can_apply(from, to),
{
    let p = state.position();
    let q = state.recorded(from, to).position();
    let fx = from.0 as int;
    let fy = from.1 as int;
    let me = p.piece(fx, fy);
    let m = Move { piece: me, start: from, end: to };
    let u = p.seat(me.owner).direction;
    assert(p.seats[me.owner - 1].direction == u);
    assert(unit_axis(u));
    assert(q.board == p.board);
    assert(q.seats[me.owner - 1].recent_move == Some(m));
    assert(q.seats[me.owner - 1].direction == u);
    if me.kind == Kind::King {
        if castle_move(m) {
            let r = side_of(u);
            let dx = sgn(to.0 - from.0);
            let dy = sgn(to.1 - from.1);
            assert(p.can_castle(fx, fy, dx, dy));
            let k = choose|k: int| #[trigger] p.castle_rook_at(me.owner, fx, fy, dx, dy, k);
            assert(k >= 1);
            assert forall|j: int| 0 <= j < k implies #[trigger] q.no_rook_at(fx, fy, dx, dy, j) by {
                assert(p.castle_passes(me.owner, fx, fy, dx, dy, j));
            }
            assert(q.first_rook(fx, fy, dx, dy, k));
            if k > 1 {
                assert(p.castle_passes(me.owner, fx, fy, dx, dy, 1));
            }
            assert(q.has(fx + dx, fy + dy));
        }
    }
}

/// The table of end states gives every situation exactly one state:
/// checkmate when the king is threatened and nothing can move, check when
/// it is threatened and something can, stalemate when it is safe and
/// nothing can move, and the normal state otherwise.
pub proof fn lemma_end_states_partition(threatened: bool, can_move: bool)
    ensures
        classify(threatened, can_move) == State::Checkmate <==> threatened && !can_move,
        classify(threatened, can_move) == State::Check <==> threatened && can_move,
        classify(threatened, can_move) == State::Stalemate <==> !threatened && !can_move,
        classify(threatened, can_move) == State::Normal <==> !threatened && can_move,
{
}

/// The end state of a player is checkmate, check, stalemate or normal
/// according to whether it is in check and whether it has a legal move,
/// and is exactly one of the four.
pub proof fn lemma_end_state_of_player(p: Position, id: usize)
    ensures
        p.end_state(id) == State::Checkmate <==> p.in_check(id) && !p.has_legal_moves(id),
        p.end_state(id) == State::Check <==> p.in_check(id) && p.has_legal_moves(id),
        p.end_state(id) == State::Stalemate <==> !p.in_check(id) && !p.has_legal_moves(id),
        p.end_state(id) == State::Normal <==> !p.in_check(id) && p.has_legal_moves(id),
{
}

/// Moves only add to the history: after them it holds what it held, then
/// the state that the moves started from.
pub proof fn lemma_played_history(game: GameView, moves: Seq<(Vector, Vector)>)
    ensures
        game.played(moves).history.len() == game.history.len() + moves.len(),
        forall|i: int|
            0 <= i < game.history.len() ==> #[trigger] game.played(moves).history[i]
                == game.history[i],
        moves.len() >= 1 ==> game.played(moves).history[game.history.len() as int] == game.state,
    decreases moves.len(),
{
    if moves.len() > 0 {
        lemma_played_history(game, moves.drop_last());
        if moves.len() == 1 {
            assert(moves.drop_last().len() == 0);
            assert(game.played(moves.drop_last()) == game);
        }
    }
}

/// A rewind undoes moves: after any number of moves, at least one, the
/// rewind by as many halfmoves gives back the state and the history that
/// the moves started from, with nothing selected.
pub proof fn lemma_rewind_undoes_moves(game: GameView, moves: Seq<(Vector, Vector)>)
    requires
        1 <= moves.len() <= u32::MAX,
    ensures
        game.played(moves).rewound(moves.len() as u32).state == game.state,
        game.played(moves).rewound(moves.len() as u32).history == game.history,
        game.played(moves).rewound(moves.len() as u32).selection is None,
{
    lemma_played_history(game, moves);
    let after = game.played(moves);
    let depth = after.rewind_depth(moves.len() as u32);
    assert(depth == game.history.len());
    assert(after.history.take(depth) =~= game.history);
}

/// The filter looks at the square where the king stands: if a king of
/// `owner` stands on the recorded king position and a piece of `owner`
/// moves onto a square that holds no piece of `owner`, then after the
/// relocation a king of `owner` stands on the square that the filter
/// tests, and the move exposes the king exactly if that square is
/// threatened.
pub proof fn lemma_exposed_king_is_threatened(
    p: Position,
    owner: usize,
    sx: int,
    sy: int,
    ex: int,
    ey: int,
)
    requires
        p.wf(),
        p.has(sx, sy),
        p.has_seat(owner),
        !p.piece(sx, sy).is_vacant(),
        p.piece(sx, sy).owner == owner,
        p.lands(owner, ex, ey),
        p.king_of(owner, p.seat(owner).king_pos.0 as int, p.seat(owner).king_pos.1 as int),
    ensures
        ({
            let after = p.relocated(sx, sy, ex, ey);
            let k = p.king_square_after(owner, sx, sy, ex, ey);
            &&& after.king_of(owner, k.0, k.1)
            &&& p.exposes_king(owner, sx, sy, ex, ey) == after.threatened(owner, k.0, k.1)
        }),
{
    lemma_relocated_wf(p, sx, sy, ex, ey);
}

/// No legal move leaves the mover's king threatened: after the piece has
/// been relocated, no piece of another player threatens the square on
/// which the mover's king then stands, which is the destination when the
/// king itself moves.
pub proof fn lemma_legal_move_keeps_king_safe(p: Position, sx: int, sy: int, tx: int, ty: int)
    requires
        p.legal(sx, sy, tx, ty),
    ensures
        ({
            let owner = p.piece(sx, sy).owner;
            let after = p.relocated(sx, sy, tx, ty);
            let k = p.king_square_after(owner, sx, sy, tx, ty);
            !after.threatened(owner, k.0, k.1)
        }),
{
}

/// A king never steps into check: once the piece of `owner` that stands
/// on the recorded king position has made a legal move, its destination is
/// not threatened.
pub proof fn lemma_king_never_steps_into_check(p: Position, owner: usize, tx: int, ty: int)
    requires
        ({
            let k = p.seat(owner).king_pos;
            &&& p.piece(k.0 as int, k.1 as int).owner == owner
            &&& p.legal(k.0 as int, k.1 as int, tx, ty)
        }),
    ensures
        ({
            let k = p.seat(owner).king_pos;
            !p.relocated(k.0 as int, k.1 as int, tx, ty).threatened(owner, tx, ty)
        }),
{
}

/// What allows a castle with the rook `k` squares from the king in
/// direction `(dx, dy)`: that square holds an unmoved rook of the king's
/// owner, every square between king and rook is unoccupied, and no square
/// from the king's to the rook's is threatened.
pub open spec fn castle_conditions(
    p: Position,
    px: int,
    py: int,
    dx: int,
    dy: int,
    k: int,
) -> bool {
    let owner = p.piece(px, py).owner;
    let rx = step(px, dx, k);
    let ry = step(py, dy, k);
    &&& k >= 1
    &&& p.has(rx, ry)
    &&& p.piece(rx, ry) == (Piece { kind: Kind::Rook, owner, has_moved: false })
    &&& forall|j: int| 1 <= j < k ==> #[trigger] p.open_at(step(px, dx, j), step(py, dy, j))
    &&& forall|j: int|
        0 <= j <= k ==> !#[trigger] p.threatened(owner, step(px, dx, j), step(py, dy, j))
}

/// A king is offered a move of two squares along a rank or a file only as
/// a castle: the king has not moved, and in the direction of the move
/// stands an unmoved rook of its owner with nothing between them and no
/// threatened square from the king's to the rook's.
pub proof fn lemma_castle_only_when_allowed(p: Position, px: int, py: int, tx: int, ty: int)
    requires
        p.wf(),
        p.has(px, py),
        p.piece(px, py).kind == Kind::King,
        p.has_seat(p.piece(px, py).owner),
        p.raw_valid(Kind::King, px, py, tx, ty),
        (abs_of(tx - px) == 2 && ty == py) || (tx == px && abs_of(ty - py) == 2),
    ensures
        !p.piece(px, py).has_moved,
        exists|k: int| #[trigger] castle_conditions(p, px, py, sgn(tx - px), sgn(ty - py), k),
{
    let me = p.piece(px, py);
    let dx = sgn(tx - px);
    let dy = sgn(ty - py);
    assert(unit_axis(p.seats[me.owner - 1].direction));
    assert(p.can_castle(px, py, dx, dy));
    let k = choose|k: int| #[trigger] p.castle_rook_at(me.owner, px, py, dx, dy, k);
    assert(k >= 1);
    assert forall|j: int| 1 <= j < k implies #[trigger] p.open_at(
        step(px, dx, j),
        step(py, dy, j),
    ) by {
        assert(p.castle_passes(me.owner, px, py, dx, dy, j));
    }
    assert forall|j: int| 0 <= j <= k implies !#[trigger] p.threatened(
        me.owner,
        step(px, dx, j),
        step(py, dy, j),
    ) by {
        if j < k {
            assert(p.castle_passes(me.owner, px, py, dx, dy, j));
        }
    }
    assert(castle_conditions(p, px, py, dx, dy, k));
}

/// After a legal castle with a rook that stands two or more squares from
/// the king, the king stands two squares towards the rook and the rook on
/// the square that the king passed over, both count as moved, the squares
/// that they left are vacant, every other square is as it was, and the
/// king's new position is recorded.
pub proof fn lemma_castle_moves_king_and_rook(
    state: GameStateView,
    from: Vector,
    to: Vector,
    k: int,
)
    requires
        state.wf(),
        state.halfmove_counter < u32::MAX,
        state.position().has(from.0 as int, from.1 as int),
        state.position().piece(from.0 as int, from.1 as int).kind == Kind::King,
        state.position().piece(from.0 as int, from.1 as int).owner == state.turn,
        state.position().legal(from.0 as int, from.1 as int, to.0 as int, to.1 as int),
        (abs_of(to.0 - from.0) == 2 && to.1 == from.1) || (to.0 == from.0 && abs_of(to.1 - from.1)
            == 2),
        k >= 2,
        castle_conditions(
            state.position(),
            from.0 as int,
            from.1 as int,
            sgn(to.0 - from.0),
            sgn(to.1 - from.1),
            k,
        ),
    ensures
        ({
            let after = state.applied(from, to);
            let owner = state.turn;
            let dx = sgn(to.0 - from.0);
            let dy = sgn(to.1 - from.1);
            let rx = step(from.0 as int, dx, k);
            let ry = step(from.1 as int, dy, k);
            &&& after.board[to.1 as int][to.0 as int] == (Piece {
                kind: Kind::King,
                owner,
                has_moved: true,
            })
            &&& after.board[from.1 + dy][from.0 + dx] == (Piece {
                kind: Kind::Rook,
                owner,
                has_moved: true,
            })
            &&& after.board[from.1 as int][from.0 as int] == vacant()
            &&& k > 2 ==> after.board[ry][rx] == vacant()
            &&& forall|x: int, y: int|
                state.position().has(x, y) && !(x == from.0 && y == from.1) && !(x == to.0 && y
                    == to.1) && !(x == from.0 + dx && y == from.1 + dy) && !(x == rx && y == ry)
                    ==> #[trigger] after.board[y][x] == state.board[y][x]
            &&& after.players[owner - 1].king_pos == to
        }),
{
    let p = state.position();
    let q = state.recorded(from, to).position();
    let fx = from.0 as int;
    let fy = from.1 as int;
    let me = p.piece(fx, fy);
    let m = Move { piece: me, start: from, end: to };
    let dx = sgn(to.0 - from.0);
    let dy = sgn(to.1 - from.1);
    let rx = step(fx, dx, k);
    let ry = step(fy, dy, k);
    lemma_legal_move_applies(state, from, to);
    assert(q.board == p.board);
    assert(q.seats[me.owner - 1].recent_move == Some(m));
    assert(castle_move(m));
    // the rook of the conditions is the first rook in the direction
    assert forall|j: int| 0 <= j < k implies #[trigger] q.no_rook_at(fx, fy, dx, dy, j) by {
        if j >= 1 {
            assert(p.open_at(step(fx, dx, j), step(fy, dy, j)));
        }
    }
    assert(q.first_rook(fx, fy, dx, dy, k));
    lemma_first_rook_unique(q, fx, fy, dx, dy, k, q.rook_distance(fx, fy, dx, dy));
    assert(p.open_at(step(fx, dx, 1), step(fy, dy, 1)));
    let castled = Piece { kind: Kind::Rook, owner: me.owner, has_moved: true };
    let beside = grid_put(p.board, fx + dx, fy + dy, castled);
    lemma_grid_put(p.board, fx + dx, fy + dy, castled);
    let shaken = grid_put(beside, rx, ry, vacant());
    lemma_grid_put(beside, rx, ry, vacant());
    assert(q.after_effect(Kind::King, fx, fy) == shaken);
    lemma_carry_over(shaken, from, to);
    let carried = state.carried(from, to);
    assert(carried.board == carry_over(shaken, from, to));
    assert(state.applied(from, to).board == carried.board);
    assert forall|x: int, y: int|
        p.has(x, y) && !(x == from.0 && y == from.1) && !(x == to.0 && y == to.1) && !(x == fx
            + dx && y == fy + dy) && !(x == rx && y == ry) implies #[trigger] carried.board[y][x]
        == state.board[y][x] by {
        assert(beside[y][x] == p.board[y][x]);
        assert(shaken[y][x] == beside[y][x]);
    }
}

/// Once the player to move has advanced a pawn by two squares to a square
/// that is not the last of its file, any pawn of another player sees it as
/// one that can be taken en passant.
pub proof fn lemma_double_step_can_be_passed(
    state: GameStateView,
    from: Vector,
    to: Vector,
    other: usize,
)
    requires
        state.wf(),
        state.halfmove_counter < u32::MAX,
        state.position().has(from.0 as int, from.1 as int),
        state.position().has(to.0 as int, to.1 as int),
        state.position().piece(from.0 as int, from.1 as int).kind == Kind::Pawn,
        state.position().piece(from.0 as int, from.1 as int).owner == state.turn,
        other != state.turn,
        ({
            let u = state.position().seat(state.turn).direction;
            &&& to.0 == from.0 + 2 * u.0
            &&& to.1 == from.1 + 2 * u.1
            &&& state.position().has(to.0 + u.0, to.1 + u.1)
        }),
    ensures
        state.applied(from, to).position().en_passant_from(other, to.0 as int, to.1 as int),
{
    let p = state.position();
    let q = state.recorded(from, to).position();
    let fx = from.0 as int;
    let fy = from.1 as int;
    let me = p.piece(fx, fy);
    let m = Move { piece: me, start: from, end: to };
    let u = p.seat(state.turn).direction;
    assert(p.seats[state.turn - 1].direction == u);
    assert(unit_axis(u));
    assert(q.board == p.board);
    assert(q.seats[me.owner - 1].recent_move == Some(m));
    assert(q.seats[me.owner - 1].direction == u);
    assert(!m.spec_is_diag());
    assert(q.after_effect(Kind::Pawn, fx, fy) == p.board);
    lemma_carry_over(p.board, from, to);
    let carried = state.carried(from, to);
    let after = state.applied(from, to);
    assert(after.board == carried.board);
    assert(after.position().seats[state.turn - 1].recent_move == Some(m));
    lemma_squares(from.0 - to.0, from.1 - to.1);
}

/// A pawn beside a pawn that can be taken en passant is offered the
/// unoccupied square diagonally ahead on that side.
pub proof fn lemma_en_passant_is_offered(p: Position, px: int, py: int, rx: int, ry: int)
    requires
        p.wf(),
        p.has(px, py),
        p.has_seat(p.piece(px, py).owner),
        (rx, ry) == side_of(p.seat(p.piece(px, py).owner).direction) || (-rx, -ry) == side_of(
            p.seat(p.piece(px, py).owner).direction,
        ),
        p.en_passant_from(p.piece(px, py).owner, px + rx, py + ry),
        ({
            let u = p.seat(p.piece(px, py).owner).direction;
            p.open_at(px + u.0 + rx, py + u.1 + ry)
        }),
    ensures
        ({
            let u = p.seat(p.piece(px, py).owner).direction;
            p.raw_valid(Kind::Pawn, px, py, px + u.0 + rx, py + u.1 + ry)
        }),
{
    let owner = p.piece(px, py).owner;
    let u = p.seat(owner).direction;
    assert(p.pawn_takes(owner, px, py, rx, ry, px + u.0 + rx, py + u.1 + ry));
}

/// Without a pawn beside it that can be taken en passant, a pawn is not
/// offered the unoccupied square diagonally ahead on that side. A pawn
/// can be taken en passant only while the last move of its owner is its
/// own advance of two squares: any later move of that player ends it.
pub proof fn lemma_en_passant_needs_the_double_step(
    p: Position,
    px: int,
    py: int,
    rx: int,
    ry: int,
)
    requires
        p.wf(),
        p.has(px, py),
        p.has_seat(p.piece(px, py).owner),
        (rx, ry) == side_of(p.seat(p.piece(px, py).owner).direction) || (-rx, -ry) == side_of(
            p.seat(p.piece(px, py).owner).direction,
        ),
        ({
            let u = p.seat(p.piece(px, py).owner).direction;
            p.open_at(px + u.0 + rx, py + u.1 + ry)
        }),
        ({
            let beside = p.piece(px + rx, py + ry);
            p.has(px + rx, py + ry) && p.has_seat(beside.owner) ==> match p.seat(
                beside.owner,
            ).recent_move {
                Some(m) => !(m.spec_square_dist() == 4 && m.end.0 == px + rx && m.end.1 == py + ry),
                None => true,
            }
        }),
    ensures
        ({
            let u = p.seat(p.piece(px, py).owner).direction;
            !p.raw_valid(Kind::Pawn, px, py, px + u.0 + rx, py + u.1 + ry)
        }),
{
    let owner = p.piece(px, py).owner;
    let u = p.seat(owner).direction;
    assert(p.seats[owner - 1].direction == u);
    assert(unit_axis(u));
    assert(!p.en_passant_from(owner, px + rx, py + ry));
}

/// The side effect of taking en passant vacates exactly one square: when
/// the last move of the owner of the pawn on `(px, py)` is one diagonal
/// step onto an unoccupied square that is not the last of its file, the
/// side effect vacates the square behind that destination and leaves every
/// other square of the board as it was.
pub proof fn lemma_en_passant_side_effect(p: Position, px: int, py: int)
    requires
        p.wf(),
        p.effect_ready(Kind::Pawn, px, py),
        ({
            let seat = p.seat(p.piece(px, py).owner);
            let m = seat.recent_move->0;
            &&& p.takes_in_passing(m)
            &&& p.has(m.end.0 + seat.direction.0, m.end.1 + seat.direction.1)
        }),
    ensures
        ({
            let seat = p.seat(p.piece(px, py).owner);
            let m = seat.recent_move->0;
            let bx = m.end.0 - seat.direction.0;
            let by = m.end.1 - seat.direction.1;
            let after = p.after_effect(Kind::Pawn, px, py);
            &&& same_shape(after, p.board)
            &&& after[by][bx] == vacant()
            &&& forall|x: int, y: int|
                p.has(x, y) && !(x == bx && y == by) ==> #[trigger] after[y][x] == p.board[y][x]
        }),
{
    let seat = p.seat(p.piece(px, py).owner);
    let m = seat.recent_move->0;
    lemma_grid_put(p.board, m.end.0 - seat.direction.0, m.end.1 - seat.direction.1, vacant());
}

/// Taking en passant removes exactly the pawn that passed: after the legal
/// move of a pawn onto the unoccupied square diagonally ahead, beside a
/// pawn that can be taken en passant, the capturing pawn stands on that
/// square and counts as moved, its own square and the square of the pawn
/// beside it are vacant, and every other square is as it was.
pub proof fn lemma_en_passant_takes_the_pawn_beside(
    state: GameStateView,
    from: Vector,
    to: Vector,
    rx: int,
    ry: int,
)
    requires
        state.wf(),
        state.halfmove_counter < u32::MAX,
        state.position().has(from.0 as int, from.1 as int),
        state.position().piece(from.0 as int, from.1 as int).kind == Kind::Pawn,
        state.position().piece(from.0 as int, from.1 as int).owner == state.turn,
        (rx, ry) == side_of(state.position().seat(state.turn).direction) || (-rx, -ry) == side_of(
            state.position().seat(state.turn).direction,
        ),
        ({
            let u = state.position().seat(state.turn).direction;
            &&& to.0 == from.0 + u.0 + rx
            &&& to.1 == from.1 + u.1 + ry
            &&& state.position().has(to.0 + u.0, to.1 + u.1)
        }),
        state.position().open_at(to.0 as int, to.1 as int),
        state.position().en_passant_from(state.turn, from.0 + rx, from.1 + ry),
        state.position().legal(from.0 as int, from.1 as int, to.0 as int, to.1 as int),
    ensures
        ({
            let after = state.applied(from, to);
            &&& after.board[to.1 as int][to.0 as int] == (Piece {
                kind: Kind::Pawn,
                owner: state.turn,
                has_moved: true,
            })
            &&& after.board[from.1 as int][from.0 as int] == vacant()
            &&& after.board[from.1 + ry][from.0 + rx] == vacant()
            &&& forall|x: int, y: int|
                state.position().has(x, y) && !(x == from.0 && y == from.1) && !(x == to.0 && y
                    == to.1) && !(x == from.0 + rx && y == from.1 + ry)
                    ==> #[trigger] after.board[y][x] == state.board[y][x]
        }),
{
    let p = state.position();
    let q = state.recorded(from, to).position();
    let fx = from.0 as int;
    let fy = from.1 as int;
    let me = p.piece(fx, fy);
    let m = Move { piece: me, start: from, end: to };
    let u = p.seat(state.turn).direction;
    assert(p.seats[state.turn - 1].direction == u);
    assert(unit_axis(u));
    lemma_legal_move_applies(state, from, to);
    assert(q.board == p.board);
    assert(q.seats[me.owner - 1].recent_move == Some(m));
    assert(q.seats[me.owner - 1].direction == u);
    assert(m.spec_is_diag());
    assert(q.takes_in_passing(m));
    let shaken = grid_put(p.board, fx + rx, fy + ry, vacant());
    lemma_grid_put(p.board, fx + rx, fy + ry, vacant());
    assert(q.after_effect(Kind::Pawn, fx, fy) == shaken);
    lemma_carry_over(shaken, from, to);
    let carried = state.carried(from, to);
    assert(carried.board == carry_over(shaken, from, to));
    assert(state.applied(from, to).board == carried.board);
}

/// A later move ends the chance: once a player has made a move that is
/// not an advance of two squares ending on `(cx, cy)`, no piece of that
/// player on `(cx, cy)` can be taken en passant.
pub proof fn lemma_later_move_ends_en_passant(
    state: GameStateView,
    from: Vector,
    to: Vector,
    other: usize,
    cx: int,
    cy: int,
)
    requires
        state.can_apply(from, to),
        state.applied(from, to).position().piece(cx, cy).owner == state.turn,
        !(to.0 == cx && to.1 == cy && (Move {
            piece: state.position().piece(from.0 as int, from.1 as int),
            start: from,
            end: to,
        }).spec_square_dist() == 4),
    ensures
        !state.applied(from, to).position().en_passant_from(other, cx, cy),
{
    let after = state.applied(from, to);
    let m = Move {
        piece: state.position().piece(from.0 as int, from.1 as int),
        start: from,
        end: to,
    };
    assert(state.recorded(from, to).players[state.turn - 1].recent_move == Some(m));
    assert(state.carried(from, to).players[state.turn - 1].recent_move == Some(m));
    assert(after.position().seats[state.turn - 1].recent_move == Some(m));
}

} // verus!
