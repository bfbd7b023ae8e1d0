//! Pieces and what each kind of piece may do.

use crate::board::{
    grid_cols, grid_fill, grid_has, grid_put, grid_rect, grid_rows, lemma_grid_fill, lemma_grid_put,
    same_shape, Matrix, Vector,
};
use crate::game::{GameState, GameStateView, Move};
use crate::rules::{
    castle_move, king_step, knight_jump, lemma_first_rook_unique, lemma_lines, lemma_put_wf,
    lemma_relocated_wf,
    line_directions, precedes, reach, sgn, side_of, step, unit_axis, Position,
};
use vstd::prelude::*;

verus! {

/// What stands on a square. `Empty` marks a square that holds nothing.
#[derive(Clone, Copy, Debug, PartialEq, Eq, Structural)]
pub enum Kind {
    King,
    Queen,
    Rook,
    Bishop,
    Knight,
    Pawn,
    Empty,
}

/// A piece knows its kind, the player that controls it (players count from 1;
/// 0 belongs to nobody) and whether it has ever been relocated.
#[derive(Clone, Copy, Debug, PartialEq, Eq, Structural)]
pub struct Piece {
    pub kind: Kind,
    pub owner: usize,
    pub has_moved: bool,
}

/// The piece that fills an unoccupied square.
pub open spec fn vacant() -> Piece {
    Piece { kind: Kind::Empty, owner: 0, has_moved: false }
}

impl Kind {
    /// The letter by which a kind is written, a blank for `Empty`.
    pub open spec fn spec_letter(self) -> char {
        match self {
            Kind::King => 'K',
            Kind::Queen => 'Q',
            Kind::Rook => 'R',
            Kind::Bishop => 'B',
            Kind::Knight => 'N',
            Kind::Pawn => 'P',
            Kind::Empty => ' ',
        }
    }

    #[verifier::when_used_as_spec(spec_letter)]
    pub fn letter(self) -> (c: char)
        ensures
            c == self.spec_letter(),
    {
        match self {
            Kind::King => 'K',
            Kind::Queen => 'Q',
            Kind::Rook => 'R',
            Kind::Bishop => 'B',
            Kind::Knight => 'N',
            Kind::Pawn => 'P',
            Kind::Empty => ' ',
        }
    }
}

impl Piece {
    pub fn new() -> (p: Piece)
        ensures
            p == vacant(),
    {
        Piece { kind: Kind::Empty, owner: 0, has_moved: false }
    }

    /// Whether this piece is the filler of an unoccupied square.
    pub open spec fn is_vacant(self) -> bool {
        self.kind == Kind::Empty
    }

    /// Tries one target square for a piece of this piece's owner, and tells
    /// whether a sliding piece may go on beyond it. A target outside the
    /// board changes nothing. Otherwise the square is marked in `threat`,
    /// if a threat mask is given, and marked in `valid` unless it holds a
    /// piece of the same owner. Only an unoccupied square of the board lets
    /// a slide continue.
    pub fn attack(
        &self,
        pos: Vector,
        state: &GameState,
        valid: &mut Matrix<bool>,
        threat: Option<&mut Matrix<bool>>,
    ) -> (open: bool)
        requires
            same_shape(old(valid)@, state.board@),
            threat matches Some(t) ==> same_shape(t@, state.board@),
        ensures
            open == state.position().open_at(pos.0 as int, pos.1 as int),
            same_shape(final(valid)@, state.board@),
            forall|x: int, y: int|
                state.position().has(x, y) ==> final(valid).at(x, y) == (old(valid).at(x, y) || (x
                    == pos.0 && y == pos.1 && state.position().lands(self.owner, x, y))),
            threat matches Some(t) ==> same_shape(final(t)@, state.board@) && forall|
                x: int,
                y: int,
            |
                state.position().has(x, y) ==> final(t).at(x, y) == (t.at(x, y) || (x == pos.0 && y
                    == pos.1)),
    {
        if !state.board.in_bounds(&pos) {
            return false;
        }
        let target = *state.board.get(&pos);
        let is_occupied = target.kind != Kind::Empty;
        let is_opposed = target.owner != self.owner;
        if !is_occupied || is_opposed {
            mark(valid, &pos);
        }
        match threat {
            Some(t) => {
                mark(t, &pos);
            },
            None => {},
        }
        !is_occupied
    }
}

/// Two masks of the board's shape with no square marked.
fn init_masks(game: &GameState) -> (masks: (Matrix<bool>, Matrix<bool>))
    requires
        grid_rect(game.board@),
    ensures
        same_shape(masks.0@, game.board@),
        same_shape(masks.1@, game.board@),
        forall|x: int, y: int| game.position().has(x, y) ==> !masks.0.at(x, y) && !masks.1.at(x, y),
{
    let (rows, cols) = game.board.shape();
    proof {
        lemma_grid_fill(false, rows as int, cols as int);
    }
    (Matrix::new(false, rows, cols), Matrix::new(false, rows, cols))
}

/// Sets the cell at `pos` of a mask.
fn mark(mask: &mut Matrix<bool>, pos: &Vector)
    requires
        grid_rect(old(mask)@),
        grid_has(old(mask)@, pos.0 as int, pos.1 as int),
    ensures
        grid_rect(final(mask)@),
        grid_rows(final(mask)@) == grid_rows(old(mask)@),
        grid_cols(final(mask)@) == grid_cols(old(mask)@),
        forall|x: int, y: int|
            grid_has(old(mask)@, x, y) ==> #[trigger] final(mask).at(x, y) == (old(mask).at(x, y)
                || (x == pos.0 && y == pos.1)),
{
    proof {
        lemma_grid_put(mask@, pos.0 as int, pos.1 as int, true);
    }
    mask.put(pos, true);
}

/// Sets the cell at `pos` of a mask if `pos` is on the board.
fn mark_inside(mask: &mut Matrix<bool>, pos: &Vector)
    requires
        grid_rect(old(mask)@),
    ensures
        grid_rect(final(mask)@),
        grid_rows(final(mask)@) == grid_rows(old(mask)@),
        grid_cols(final(mask)@) == grid_cols(old(mask)@),
        forall|x: int, y: int|
            grid_has(old(mask)@, x, y) ==> #[trigger] final(mask).at(x, y) == (old(mask).at(x, y)
                || (x == pos.0 && y == pos.1)),
{
    if mask.in_bounds(pos) {
        mark(mask, pos);
    }
}

/// Marks the squares of the board next to `pos`: those that a king on
/// `pos` threatens.
fn mark_around(mask: &mut Matrix<bool>, pos: &Vector)
    requires
        old(mask).wf(),
        grid_has(old(mask)@, pos.0 as int, pos.1 as int),
    ensures
        grid_rect(final(mask)@),
        grid_rows(final(mask)@) == grid_rows(old(mask)@),
        grid_cols(final(mask)@) == grid_cols(old(mask)@),
        forall|x: int, y: int|
            grid_has(old(mask)@, x, y) ==> #[trigger] final(mask).at(x, y) == (old(mask).at(x, y)
                || king_step(x - pos.0, y - pos.1)),
{
    mark_inside(mask, &(*pos + Vector(-1, -1)));
    mark_inside(mask, &(*pos + Vector(-1, 0)));
    mark_inside(mask, &(*pos + Vector(-1, 1)));
    mark_inside(mask, &(*pos + Vector(0, -1)));
    mark_inside(mask, &(*pos + Vector(0, 1)));
    mark_inside(mask, &(*pos + Vector(1, -1)));
    mark_inside(mask, &(*pos + Vector(1, 0)));
    mark_inside(mask, &(*pos + Vector(1, 1)));
}

/// Clears the cell at `pos` of a mask.
fn unmark(mask: &mut Matrix<bool>, pos: &Vector)
    requires
        grid_rect(old(mask)@),
        grid_has(old(mask)@, pos.0 as int, pos.1 as int),
    ensures
        grid_rect(final(mask)@),
        grid_rows(final(mask)@) == grid_rows(old(mask)@),
        grid_cols(final(mask)@) == grid_cols(old(mask)@),
        forall|x: int, y: int|
            grid_has(old(mask)@, x, y) ==> #[trigger] final(mask).at(x, y) == (old(mask).at(x, y)
                && !(x == pos.0 && y == pos.1)),
{
    proof {
        lemma_grid_put(mask@, pos.0 as int, pos.1 as int, false);
    }
    mask.put(pos, false);
}

/// Marks in `mask` every cell that is marked in `other`.
fn absorb(mask: &mut Matrix<bool>, other: &Matrix<bool>)
    requires
        same_shape(old(mask)@, other@),
        other.wf(),
    ensures
        same_shape(final(mask)@, other@),
        forall|x: int, y: int|
            grid_has(other@, x, y) ==> #[trigger] final(mask).at(x, y) == (old(mask).at(x, y)
                || other.at(x, y)),
{
    let (rows, cols) = other.shape();
    let ghost before = mask@;
    let mut row: usize = 0;
    while row < rows
        invariant
            row <= rows,
            rows == grid_rows(other@),
            cols == grid_cols(other@),
            other.wf(),
            same_shape(mask@, other@),
            same_shape(before, other@),
            forall|x: int, y: int|
                grid_has(other@, x, y) ==> #[trigger] mask.at(x, y) == (before[y][x] || (y < row
                    && other.at(x, y))),
        decreases rows - row,
    {
        let mut col: usize = 0;
        while col < cols
            invariant
                row < rows,
                col <= cols,
                rows == grid_rows(other@),
                cols == grid_cols(other@),
                other.wf(),
                same_shape(mask@, other@),
                same_shape(before, other@),
                forall|x: int, y: int|
                    grid_has(other@, x, y) ==> #[trigger] mask.at(x, y) == (before[y][x] || ((y
                        < row || (y == row && x < col)) && other.at(x, y))),
            decreases cols - col,
        {
            let at = Vector(col as i32, row as i32);
            if other.get(&at) {
                mark(mask, &at);
            }
            col += 1;
        }
        row += 1;
    }
}

impl Piece {
    /// Slides from `pos` in one direction, attacking square after square
    /// until an attack reports that the way is blocked.
    fn extend_ray(
        &self,
        pos: &Vector,
        direction: Vector,
        state: &GameState,
        valid: &mut Matrix<bool>,
        threat: &mut Matrix<bool>,
    )
        requires
            state.position().wf(),
            state.position().has(pos.0 as int, pos.1 as int),
            king_step(direction.0 as int, direction.1 as int),
            same_shape(old(valid)@, state.board@),
            same_shape(old(threat)@, state.board@),
        ensures
            same_shape(final(valid)@, state.board@),
            same_shape(final(threat)@, state.board@),
            forall|x: int, y: int|
                state.position().has(x, y) ==> final(threat).at(x, y) == (old(threat).at(x, y)
                    || state.position().ray_hits(
                    direction.0 as int,
                    direction.1 as int,
                    pos.0 as int,
                    pos.1 as int,
                    x,
                    y,
                )),
            forall|x: int, y: int|
                state.position().has(x, y) ==> final(valid).at(x, y) == (old(valid).at(x, y) || (
                state.position().ray_hits(
                    direction.0 as int,
                    direction.1 as int,
                    pos.0 as int,
                    pos.1 as int,
                    x,
                    y,
                ) && state.position().lands(self.owner, x, y))),
    {
        let ghost p = state.position();
        let ghost px = pos.0 as int;
        let ghost py = pos.1 as int;
        let ghost sx = direction.0 as int;
        let ghost sy = direction.1 as int;
        let ghost valid0 = valid@;
        let ghost threat0 = threat@;
        let mut target = *pos;
        let ghost mut k: int = 0;
        loop
            invariant_except_break
                target.0 == step(px, sx, k),
                target.1 == step(py, sy, k),
                p.has(target.0 as int, target.1 as int),
                forall|j: int| 1 <= j <= k ==> #[trigger] p.ray_open(px, py, sx, sy, j),
                forall|x: int, y: int|
                    p.has(x, y) ==> threat.at(x, y) == (threat0[y][x] || (p.ray_hits(
                        sx,
                        sy,
                        px,
                        py,
                        x,
                        y,
                    ) && reach(x - px, y - py) <= k)),
                forall|x: int, y: int|
                    p.has(x, y) ==> valid.at(x, y) == (valid0[y][x] || (p.ray_hits(
                        sx,
                        sy,
                        px,
                        py,
                        x,
                        y,
                    ) && reach(x - px, y - py) <= k && p.lands(self.owner, x, y))),
            invariant
                k >= 0,
                p == state.position(),
                p.wf(),
                p.has(px, py),
                px == pos.0,
                py == pos.1,
                sx == direction.0,
                sy == direction.1,
                king_step(sx, sy),
                same_shape(valid@, state.board@),
                same_shape(threat@, state.board@),
            ensures
                forall|x: int, y: int|
                    p.has(x, y) ==> threat.at(x, y) == (threat0[y][x] || p.ray_hits(
                        sx,
                        sy,
                        px,
                        py,
                        x,
                        y,
                    )),
                forall|x: int, y: int|
                    p.has(x, y) ==> valid.at(x, y) == (valid0[y][x] || (p.ray_hits(
                        sx,
                        sy,
                        px,
                        py,
                        x,
                        y,
                    ) && p.lands(self.owner, x, y))),
            decreases p.rows() + p.cols() - k,
        {
            target = target + direction;
            proof {
                k = k + 1;
            }
            let ghost valid1 = valid@;
            let ghost threat1 = threat@;
            let open = self.attack(target, state, valid, Some(&mut *threat));
            let ghost tx = target.0 as int;
            let ghost ty = target.1 as int;
            assert(tx == step(px, sx, k) && ty == step(py, sy, k));
            assert(open == p.ray_open(px, py, sx, sy, k));
            assert forall|x: int, y: int| p.has(x, y) implies ((x == tx && y == ty) <==> (
            #[trigger] p.ray_hits(sx, sy, px, py, x, y) && reach(x - px, y - py) == k)) by {
                if x == tx && y == ty {
                    assert forall|j: int|
                        1 <= j < reach(x - px, y - py) implies #[trigger] p.ray_open(
                        px,
                        py,
                        sgn(x - px),
                        sgn(y - py),
                        j,
                    ) by {
                        assert(p.ray_open(px, py, sx, sy, j));
                    }
                }
            }
            if !open {
                assert forall|x: int, y: int|
                    p.has(x, y) && #[trigger] p.ray_hits(sx, sy, px, py, x, y) implies reach(
                    x - px,
                    y - py,
                ) <= k by {
                    if reach(x - px, y - py) > k {
                        assert(p.ray_open(px, py, sgn(x - px), sgn(y - py), k));
                    }
                }
                break ;
            }
        }
    }

    /// Slides from `pos` in each of the given directions in turn.
    pub fn extend(
        &self,
        pos: &Vector,
        directions: Vec<Vector>,
        state: &GameState,
        valid: &mut Matrix<bool>,
        threat: &mut Matrix<bool>,
    )
        requires
            state.position().wf(),
            state.position().has(pos.0 as int, pos.1 as int),
            forall|i: int|
                0 <= i < directions@.len() ==> king_step(
                    (#[trigger] directions@[i]).0 as int,
                    directions@[i].1 as int,
                ),
            same_shape(old(valid)@, state.board@),
            same_shape(old(threat)@, state.board@),
        ensures
            same_shape(final(valid)@, state.board@),
            same_shape(final(threat)@, state.board@),
            forall|x: int, y: int|
                state.position().has(x, y) ==> final(threat).at(x, y) == (old(threat).at(x, y)
                    || state.position().rays_hit(
                    directions@,
                    directions@.len() as int,
                    pos.0 as int,
                    pos.1 as int,
                    x,
                    y,
                )),
            forall|x: int, y: int|
                state.position().has(x, y) ==> final(valid).at(x, y) == (old(valid).at(x, y) || (
                state.position().rays_hit(
                    directions@,
                    directions@.len() as int,
                    pos.0 as int,
                    pos.1 as int,
                    x,
                    y,
                ) && state.position().lands(self.owner, x, y))),
    {
        let ghost p = state.position();
        let ghost px = pos.0 as int;
        let ghost py = pos.1 as int;
        let ghost valid0 = valid@;
        let ghost threat0 = threat@;
        let mut i: usize = 0;
        while i < directions.len()
            invariant
                i <= directions@.len(),
                p == state.position(),
                p.wf(),
                p.has(px, py),
                px == pos.0,
                py == pos.1,
                forall|i: int|
                    0 <= i < directions@.len() ==> king_step(
                        (#[trigger] directions@[i]).0 as int,
                        directions@[i].1 as int,
                    ),
                same_shape(valid@, state.board@),
                same_shape(threat@, state.board@),
                forall|x: int, y: int|
                    p.has(x, y) ==> threat.at(x, y) == (threat0[y][x] || p.rays_hit(
                        directions@,
                        i as int,
                        px,
                        py,
                        x,
                        y,
                    )),
                forall|x: int, y: int|
                    p.has(x, y) ==> valid.at(x, y) == (valid0[y][x] || (p.rays_hit(
                        directions@,
                        i as int,
                        px,
                        py,
                        x,
                        y,
                    ) && p.lands(self.owner, x, y))),
            decreases directions@.len() - i,
        {
            let direction = directions[i];
            self.extend_ray(pos, direction, state, valid, threat);
            assert forall|x: int, y: int| p.has(x, y) implies (#[trigger] p.rays_hit(
                directions@,
                i + 1,
                px,
                py,
                x,
                y,
            ) <==> (p.rays_hit(directions@, i as int, px, py, x, y) || p.ray_hits(
                direction.0 as int,
                direction.1 as int,
                px,
                py,
                x,
                y,
            ))) by {
                if p.ray_hits(direction.0 as int, direction.1 as int, px, py, x, y) {
                    assert(p.ray_hits(
                        directions@[i as int].0 as int,
                        directions@[i as int].1 as int,
                        px,
                        py,
                        x,
                        y,
                    ));
                }
            }
            i += 1;
        }
    }
}

/// Whether the square at `pos` is on the board and unoccupied.
fn is_open(game: &GameState, pos: &Vector) -> (b: bool)
    requires
        grid_rect(game.board@),
    ensures
        b == game.position().open_at(pos.0 as int, pos.1 as int),
{
    game.in_bounds(pos) && game.get_piece(pos).kind == Kind::Empty
}

/// Whether the square at `pos` is on the board and holds a piece of
/// another owner than `owner`.
fn holds_enemy(game: &GameState, owner: usize, pos: &Vector) -> (b: bool)
    requires
        grid_rect(game.board@),
    ensures
        b == game.position().enemy_at(owner, pos.0 as int, pos.1 as int),
{
    if !game.board.in_bounds(pos) {
        return false;
    }
    let piece = game.get_piece(pos);
    piece.kind != Kind::Empty && piece.owner != owner
}

/// Whether the square at `pos` holds a pawn that a pawn of `owner` may take
/// en passant: a pawn of another owner whose owner's last move was an
/// advance of two squares that ended on `pos`.
fn passable(game: &GameState, owner: usize, pos: &Vector) -> (b: bool)
    requires
        game.position().wf(),
    ensures
        b == game.position().en_passant_from(owner, pos.0 as int, pos.1 as int),
{
    if !game.board.in_bounds(pos) {
        return false;
    }
    let piece = *game.get_piece(pos);
    if piece.kind == Kind::Empty {
        return false;
    }
    let victim = game.get_player(piece.owner);
    match victim.recent_move {
        None => false,
        Some(recent_move) => piece.kind == Kind::Pawn && piece.owner != owner
            && recent_move.is_double_step() && recent_move.end == *pos,
    }
}

/// The masks of a queen, rook or bishop standing on `pos`.
fn claim_lines(kind: Kind, pos: &Vector, game: &GameState) -> (masks: (Matrix<bool>, Matrix<bool>))
    requires
        game.position().wf(),
        game.position().has(pos.0 as int, pos.1 as int),
        kind == Kind::Queen || kind == Kind::Rook || kind == Kind::Bishop,
    ensures
        same_shape(masks.0@, game.board@),
        same_shape(masks.1@, game.board@),
        forall|x: int, y: int|
            game.position().has(x, y) ==> masks.0.at(x, y) == game.position().raw_valid(
                kind,
                pos.0 as int,
                pos.1 as int,
                x,
                y,
            ),
        forall|x: int, y: int|
            game.position().has(x, y) ==> masks.1.at(x, y) == game.position().plain_threat(
                kind,
                pos.0 as int,
                pos.1 as int,
                x,
                y,
            ),
{
    let this = *game.get_piece(pos);
    let (mut valid, mut threat) = init_masks(game);
    let directions = match kind {
        Kind::Rook => vec![Vector(0, 1), Vector(1, 0), Vector(0, -1), Vector(-1, 0)],
        Kind::Bishop => vec![Vector(1, 1), Vector(1, -1), Vector(-1, -1), Vector(-1, 1)],
        _ => vec![
            Vector(-1, -1),
            Vector(-1, 0),
            Vector(-1, 1),
            Vector(0, -1),
            Vector(0, 1),
            Vector(1, -1),
            Vector(1, 0),
            Vector(1, 1),
        ],
    };
    assert(directions@ =~= line_directions(kind));
    this.extend(pos, directions, game, &mut valid, &mut threat);
    proof {
        let p = game.position();
        assert forall|x: int, y: int| p.has(x, y) implies #[trigger] p.rays_hit(
            line_directions(kind),
            line_directions(kind).len() as int,
            pos.0 as int,
            pos.1 as int,
            x,
            y,
        ) == p.slide_threat(kind, pos.0 as int, pos.1 as int, x, y) by {
            lemma_lines(p, kind, pos.0 as int, pos.1 as int, x, y);
        }
    }
    (valid, threat)
}

/// The masks of a knight standing on `pos`.
fn claim_knight(pos: &Vector, game: &GameState) -> (masks: (Matrix<bool>, Matrix<bool>))
    requires
        game.position().wf(),
        game.position().has(pos.0 as int, pos.1 as int),
    ensures
        same_shape(masks.0@, game.board@),
        same_shape(masks.1@, game.board@),
        forall|x: int, y: int|
            game.position().has(x, y) ==> masks.0.at(x, y) == game.position().raw_valid(
                Kind::Knight,
                pos.0 as int,
                pos.1 as int,
                x,
                y,
            ),
        forall|x: int, y: int|
            game.position().has(x, y) ==> masks.1.at(x, y) == game.position().plain_threat(
                Kind::Knight,
                pos.0 as int,
                pos.1 as int,
                x,
                y,
            ),
{
    let this = *game.get_piece(pos);
    let (mut valid, mut threat) = init_masks(game);
    this.attack(*pos + Vector(2, 1), game, &mut valid, Some(&mut threat));
    this.attack(*pos + Vector(1, 2), game, &mut valid, Some(&mut threat));
    this.attack(*pos + Vector(-1, 2), game, &mut valid, Some(&mut threat));
    this.attack(*pos + Vector(-2, 1), game, &mut valid, Some(&mut threat));
    this.attack(*pos + Vector(-2, -1), game, &mut valid, Some(&mut threat));
    this.attack(*pos + Vector(-1, -2), game, &mut valid, Some(&mut threat));
    this.attack(*pos + Vector(1, -2), game, &mut valid, Some(&mut threat));
    this.attack(*pos + Vector(2, -1), game, &mut valid, Some(&mut threat));
    (valid, threat)
}

/// Marks the squares that a pawn may advance to.
fn pawn_advance(
    this: &Piece,
    pos: &Vector,
    unit: Vector,
    game: &GameState,
    valid: &mut Matrix<bool>,
)
    requires
        game.position().wf(),
        game.position().has(pos.0 as int, pos.1 as int),
        unit_axis(unit),
        same_shape(old(valid)@, game.board@),
    ensures
        same_shape(final(valid)@, game.board@),
        forall|x: int, y: int|
            game.position().has(x, y) ==> final(valid).at(x, y) == (old(valid).at(x, y)
                || game.position().pawn_steps(
                unit,
                this.has_moved,
                pos.0 as int,
                pos.1 as int,
                x,
                y,
            )),
{
    let near = *pos + unit;
    let far = near + unit;
    let near_is_empty = is_open(game, &near);
    let far_is_empty = is_open(game, &far);
    if near_is_empty {
        this.attack(near, game, valid, None);
        if !this.has_moved && far_is_empty {
            this.attack(far, game, valid, None);
        }
    }
}

/// Marks the square diagonally ahead of a pawn, on the side `side`, as
/// threatened, and as valid if the pawn may capture onto it.
fn pawn_capture(
    this: &Piece,
    pos: &Vector,
    unit: Vector,
    side: Vector,
    game: &GameState,
    valid: &mut Matrix<bool>,
    threat: &mut Matrix<bool>,
)
    requires
        game.position().wf(),
        game.position().has(pos.0 as int, pos.1 as int),
        game.position().has_seat(this.owner),
        unit == game.position().seat(this.owner).direction,
        -1 <= side.0 <= 1,
        -1 <= side.1 <= 1,
        same_shape(old(valid)@, game.board@),
        same_shape(old(threat)@, game.board@),
    ensures
        same_shape(final(valid)@, game.board@),
        same_shape(final(threat)@, game.board@),
        forall|x: int, y: int|
            game.position().has(x, y) ==> final(valid).at(x, y) == (old(valid).at(x, y)
                || game.position().pawn_takes(
                this.owner,
                pos.0 as int,
                pos.1 as int,
                side.0 as int,
                side.1 as int,
                x,
                y,
            )),
        forall|x: int, y: int|
            game.position().has(x, y) ==> final(threat).at(x, y) == (old(threat).at(x, y) || (x
                == pos.0 + unit.0 + side.0 && y == pos.1 + unit.1 + side.1)),
{
    assert(unit_axis(unit));
    let diag = *pos + unit + side;
    let can_take = holds_enemy(game, this.owner, &diag);
    let can_pass = passable(game, this.owner, &(*pos + side));
    // the diagonal square is threatened whatever it holds, so that an enemy
    // king cannot step there
    if game.board.in_bounds(&diag) {
        mark(threat, &diag);
    }
    if can_take || can_pass {
        this.attack(diag, game, valid, None);
    }
}

/// The masks of a pawn standing on `pos`.
fn claim_pawn(pos: &Vector, game: &GameState) -> (masks: (Matrix<bool>, Matrix<bool>))
    requires
        game.position().wf(),
        game.position().has(pos.0 as int, pos.1 as int),
        game.position().has_seat(game.position().piece(pos.0 as int, pos.1 as int).owner),
    ensures
        same_shape(masks.0@, game.board@),
        same_shape(masks.1@, game.board@),
        forall|x: int, y: int|
            game.position().has(x, y) ==> masks.0.at(x, y) == game.position().raw_valid(
                Kind::Pawn,
                pos.0 as int,
                pos.1 as int,
                x,
                y,
            ),
        forall|x: int, y: int|
            game.position().has(x, y) ==> masks.1.at(x, y) == game.position().plain_threat(
                Kind::Pawn,
                pos.0 as int,
                pos.1 as int,
                x,
                y,
            ),
{
    let this = *game.get_piece(pos);
    let (mut valid, mut threat) = init_masks(game);
    let unit = game.get_player(this.owner).direction;
    assert(unit == game.position().seat(this.owner).direction);
    assert(unit_axis(unit));
    pawn_advance(&this, pos, unit, game, &mut valid);
    let right = Vector(-unit.1, unit.0);
    let left = Vector(unit.1, -unit.0);
    pawn_capture(&this, pos, unit, right, game, &mut valid, &mut threat);
    pawn_capture(&this, pos, unit, left, game, &mut valid, &mut threat);
    (valid, threat)
}

/// The masks of a piece of `kind`, which is no king, standing on `pos`.
fn claim_plain(kind: Kind, pos: &Vector, game: &GameState) -> (masks: (Matrix<bool>, Matrix<bool>))
    requires
        game.position().wf(),
        kind != Kind::King,
        kind != Kind::Empty ==> game.position().has(pos.0 as int, pos.1 as int),
        kind == Kind::Pawn ==> game.position().has_seat(
            game.position().piece(pos.0 as int, pos.1 as int).owner,
        ),
    ensures
        same_shape(masks.0@, game.board@),
        same_shape(masks.1@, game.board@),
        forall|x: int, y: int|
            game.position().has(x, y) ==> masks.0.at(x, y) == game.position().raw_valid(
                kind,
                pos.0 as int,
                pos.1 as int,
                x,
                y,
            ),
        forall|x: int, y: int|
            game.position().has(x, y) ==> masks.1.at(x, y) == game.position().plain_threat(
                kind,
                pos.0 as int,
                pos.1 as int,
                x,
                y,
            ),
{
    match kind {
        Kind::Queen | Kind::Rook | Kind::Bishop => claim_lines(kind, pos, game),
        Kind::Knight => claim_knight(pos, game),
        Kind::Pawn => claim_pawn(pos, game),
        _ => init_masks(game),
    }
}

/// Visiting one more square adds what the piece on it menaces.
proof fn lemma_menaced_step(p: Position, owner: usize, cx: int, cy: int, tx: int, ty: int)
    ensures
        p.menaced_before(owner, cx + 1, cy, tx, ty) == (p.menaced_before(owner, cx, cy, tx, ty)
            || p.menaces(owner, cx, cy, tx, ty)),
{
    if p.menaced_before(owner, cx + 1, cy, tx, ty) {
        let (sx, sy) = choose|sx: int, sy: int|
            precedes(sx, sy, cx + 1, cy) && #[trigger] p.menaces(owner, sx, sy, tx, ty);
        if !(sx == cx && sy == cy) {
            assert(precedes(sx, sy, cx, cy) && p.menaces(owner, sx, sy, tx, ty));
        }
    }
    if p.menaced_before(owner, cx, cy, tx, ty) {
        let (sx, sy) = choose|sx: int, sy: int|
            precedes(sx, sy, cx, cy) && #[trigger] p.menaces(owner, sx, sy, tx, ty);
        assert(precedes(sx, sy, cx + 1, cy) && p.menaces(owner, sx, sy, tx, ty));
    }
    if p.menaces(owner, cx, cy, tx, ty) {
        assert(precedes(cx, cy, cx + 1, cy) && p.menaces(owner, cx, cy, tx, ty));
    }
}

/// The end of one rank is the start of the next.
proof fn lemma_menaced_row(p: Position, owner: usize, cy: int, tx: int, ty: int)
    ensures
        p.menaced_before(owner, 0, cy + 1, tx, ty) == p.menaced_before(owner, p.cols(), cy, tx, ty),
{
    if p.menaced_before(owner, 0, cy + 1, tx, ty) {
        let (sx, sy) = choose|sx: int, sy: int|
            precedes(sx, sy, 0, cy + 1) && #[trigger] p.menaces(owner, sx, sy, tx, ty);
        assert(precedes(sx, sy, p.cols(), cy) && p.menaces(owner, sx, sy, tx, ty));
    }
    if p.menaced_before(owner, p.cols(), cy, tx, ty) {
        let (sx, sy) = choose|sx: int, sy: int|
            precedes(sx, sy, p.cols(), cy) && #[trigger] p.menaces(owner, sx, sy, tx, ty);
        assert(precedes(sx, sy, 0, cy + 1) && p.menaces(owner, sx, sy, tx, ty));
    }
}

/// Once every rank has been visited, every menace has been found.
proof fn lemma_menaced_all(p: Position, owner: usize, tx: int, ty: int)
    ensures
        p.menaced_before(owner, 0, p.rows(), tx, ty) == p.threatened(owner, tx, ty),
{
    if p.menaced_before(owner, 0, p.rows(), tx, ty) {
        let (sx, sy) = choose|sx: int, sy: int|
            precedes(sx, sy, 0, p.rows()) && #[trigger] p.menaces(owner, sx, sy, tx, ty);
        assert(p.menaces(owner, sx, sy, tx, ty));
    }
    if p.threatened(owner, tx, ty) {
        let (sx, sy) = choose|sx: int, sy: int| #[trigger] p.menaces(owner, sx, sy, tx, ty);
        assert(precedes(sx, sy, 0, p.rows()) && p.menaces(owner, sx, sy, tx, ty));
    }
}

/// The squares that pieces of other owners than `owner` threaten.
fn menace_mask(game: &GameState, owner: usize) -> (mask: Matrix<bool>)
    requires
        game.position().wf(),
    ensures
        same_shape(mask@, game.board@),
        forall|x: int, y: int|
            game.position().has(x, y) ==> mask.at(x, y) == game.position().threatened(owner, x, y),
{
    let ghost p = game.position();
    let (rows, cols) = game.board.shape();
    let (mut mask, _) = init_masks(game);
    let mut row: usize = 0;
    while row < rows
        invariant
            row <= rows,
            rows == p.rows(),
            cols == p.cols(),
            p == game.position(),
            p.wf(),
            same_shape(mask@, game.board@),
            forall|x: int, y: int|
                p.has(x, y) ==> mask.at(x, y) == p.menaced_before(owner, 0, row as int, x, y),
        decreases rows - row,
    {
        let mut col: usize = 0;
        while col < cols
            invariant
                row < rows,
                col <= cols,
                rows == p.rows(),
                cols == p.cols(),
                p == game.position(),
                p.wf(),
                same_shape(mask@, game.board@),
                forall|x: int, y: int|
                    p.has(x, y) ==> mask.at(x, y) == p.menaced_before(
                        owner,
                        col as int,
                        row as int,
                        x,
                        y,
                    ),
            decreases cols - col,
        {
            let at = Vector(col as i32, row as i32);
            let attacker = *game.get_piece(&at);
            if attacker.owner != owner {
                if attacker.kind == Kind::King {
                    // a king threatens the squares next to it; its own
                    // masks are never asked for here
                    mark_around(&mut mask, &at);
                } else {
                    let (_, threat) = claim_plain(attacker.kind, &at, game);
                    absorb(&mut mask, &threat);
                }
            }
            proof {
                assert forall|x: int, y: int| p.has(x, y) implies mask.at(x, y) == p.menaced_before(
                    owner,
                    col + 1,
                    row as int,
                    x,
                    y,
                ) by {
                    lemma_menaced_step(p, owner, col as int, row as int, x, y);
                }
            }
            col += 1;
        }
        proof {
            assert forall|x: int, y: int| p.has(x, y) implies mask.at(x, y) == p.menaced_before(
                owner,
                0,
                row + 1,
                x,
                y,
            ) by {
                lemma_menaced_row(p, owner, row as int, x, y);
            }
        }
        row += 1;
    }
    proof {
        assert forall|x: int, y: int| p.has(x, y) implies mask.at(x, y) == p.threatened(
            owner,
            x,
            y,
        ) by {
            lemma_menaced_all(p, owner, x, y);
        }
    }
    mask
}

/// Once the castle scan has passed `k` squares and the next one neither
/// passes nor holds the rook looked for, no rook can be reached.
proof fn lemma_castle_blocked(p: Position, owner: usize, px: int, py: int, dx: int, dy: int, k: int)
    requires
        k >= 0,
        forall|j: int| 0 <= j < k ==> #[trigger] p.castle_passes(owner, px, py, dx, dy, j),
        !p.castle_passes(owner, px, py, dx, dy, k),
        !(p.has(step(px, dx, k), step(py, dy, k)) && p.friendly_rook(
            owner,
            step(px, dx, k),
            step(py, dy, k),
        ) && !p.piece(step(px, dx, k), step(py, dy, k)).has_moved && !p.threatened(
            owner,
            step(px, dx, k),
            step(py, dy, k),
        )),
    ensures
        forall|n: int| !#[trigger] p.castle_rook_at(owner, px, py, dx, dy, n),
{
    assert forall|n: int| !#[trigger] p.castle_rook_at(owner, px, py, dx, dy, n) by {
        if p.castle_rook_at(owner, px, py, dx, dy, n) {
            if n < k {
                assert(p.castle_passes(owner, px, py, dx, dy, n));
            } else if n > k {
                assert(p.castle_passes(owner, px, py, dx, dy, k));
            }
        }
    }
}

/// Scans from the king in `direction` for a rook to castle with.
fn can_castle(
    game: &GameState,
    this: &Piece,
    pos: &Vector,
    direction: Vector,
    threatened: &Matrix<bool>,
) -> (b: bool)
    requires
        game.position().wf(),
        game.position().has(pos.0 as int, pos.1 as int),
        *this == game.position().piece(pos.0 as int, pos.1 as int),
        game.position().has_seat(this.owner),
        king_step(direction.0 as int, direction.1 as int),
        same_shape(threatened@, game.board@),
        forall|x: int, y: int|
            game.position().has(x, y) ==> #[trigger] threatened.at(x, y)
                == game.position().threatened(this.owner, x, y),
    ensures
        b == game.position().can_castle(
            pos.0 as int,
            pos.1 as int,
            direction.0 as int,
            direction.1 as int,
        ),
{
    let ghost p = game.position();
    let ghost px = pos.0 as int;
    let ghost py = pos.1 as int;
    let ghost dx = direction.0 as int;
    let ghost dy = direction.1 as int;
    let unit = game.get_player(this.owner).direction;
    assert(unit == p.seat(this.owner).direction);
    assert(unit_axis(unit));
    let behind = Vector(pos.0 - unit.0, pos.1 - unit.1);
    if game.in_bounds(&behind) || this.has_moved {
        return false;
    }
    let mut target = *pos;
    let ghost mut k: int = 0;
    loop
        invariant
            k >= 0,
            p == game.position(),
            p.wf(),
            p.has(px, py),
            px == pos.0,
            py == pos.1,
            dx == direction.0,
            dy == direction.1,
            king_step(dx, dy),
            *this == p.piece(px, py),
            !p.has(px - p.seat(this.owner).direction.0, py - p.seat(this.owner).direction.1),
            !this.has_moved,
            target.0 == step(px, dx, k),
            target.1 == step(py, dy, k),
            p.has(target.0 as int, target.1 as int),
            same_shape(threatened@, game.board@),
            forall|x: int, y: int|
                p.has(x, y) ==> #[trigger] threatened.at(x, y) == p.threatened(this.owner, x, y),
            forall|j: int| 0 <= j < k ==> #[trigger] p.castle_passes(this.owner, px, py, dx, dy, j),
        decreases p.rows() + p.cols() - k,
    {
        let piece = *game.get_piece(&target);
        let menaced = threatened.get(&target);
        assert(menaced == threatened.at(target.0 as int, target.1 as int));
        if menaced {
            proof {
                lemma_castle_blocked(p, this.owner, px, py, dx, dy, k);
            }
            return false;
        } else if piece.kind == Kind::Rook && piece.owner == this.owner {
            if piece.has_moved {
                proof {
                    lemma_castle_blocked(p, this.owner, px, py, dx, dy, k);
                }
                return false;
            }
            assert(p.castle_rook_at(this.owner, px, py, dx, dy, k));
            return true;
        } else if piece.kind != Kind::Empty && target != *pos {
            proof {
                lemma_castle_blocked(p, this.owner, px, py, dx, dy, k);
            }
            return false;
        }
        assert(p.castle_passes(this.owner, px, py, dx, dy, k));
        target = target + direction;
        proof {
            k = k + 1;
        }
        if !game.in_bounds(&target) {
            proof {
                lemma_castle_blocked(p, this.owner, px, py, dx, dy, k);
            }
            return false;
        }
    }
}

/// Lets the king step onto `target` if that square is on the board, not
/// threatened, and not held by a piece of the king's owner.
fn king_step_to(
    this: &Piece,
    target: Vector,
    game: &GameState,
    threatened: &Matrix<bool>,
    valid: &mut Matrix<bool>,
)
    requires
        grid_rect(game.board@),
        same_shape(threatened@, game.board@),
        same_shape(old(valid)@, game.board@),
    ensures
        same_shape(final(valid)@, game.board@),
        forall|x: int, y: int|
            game.position().has(x, y) ==> #[trigger] final(valid).at(x, y) == (old(valid).at(x, y)
                || (x == target.0 && y == target.1 && !threatened.at(x, y)
                && game.position().lands(this.owner, x, y))),
{
    if game.board.in_bounds(&target) && !threatened.get(&target) {
        this.attack(target, game, valid, None);
    }
}

/// The masks of a king standing on `pos`.
fn claim_king(pos: &Vector, game: &GameState) -> (masks: (Matrix<bool>, Matrix<bool>))
    requires
        game.position().wf(),
        game.position().has(pos.0 as int, pos.1 as int),
        game.position().has_seat(game.position().piece(pos.0 as int, pos.1 as int).owner),
    ensures
        same_shape(masks.0@, game.board@),
        same_shape(masks.1@, game.board@),
        forall|x: int, y: int|
            game.position().has(x, y) ==> masks.0.at(x, y) == game.position().raw_valid(
                Kind::King,
                pos.0 as int,
                pos.1 as int,
                x,
                y,
            ),
        forall|x: int, y: int|
            game.position().has(x, y) ==> masks.1.at(x, y) == game.position().raw_threat(
                Kind::King,
                pos.0 as int,
                pos.1 as int,
                x,
                y,
            ),
{
    let this = *game.get_piece(pos);
    let (mut valid, _) = init_masks(game);
    // what the other players' pieces threaten, taken together
    let threatened = menace_mask(game, this.owner);
    king_step_to(&this, *pos + Vector(-1, -1), game, &threatened, &mut valid);
    king_step_to(&this, *pos + Vector(-1, 0), game, &threatened, &mut valid);
    king_step_to(&this, *pos + Vector(-1, 1), game, &threatened, &mut valid);
    king_step_to(&this, *pos + Vector(0, -1), game, &threatened, &mut valid);
    king_step_to(&this, *pos + Vector(0, 1), game, &threatened, &mut valid);
    king_step_to(&this, *pos + Vector(1, -1), game, &threatened, &mut valid);
    king_step_to(&this, *pos + Vector(1, 0), game, &threatened, &mut valid);
    king_step_to(&this, *pos + Vector(1, 1), game, &threatened, &mut valid);
    let ghost stepped = valid@;
    assert forall|x: int, y: int| game.position().has(x, y) implies stepped[y][x] == (king_step(
        x - pos.0,
        y - pos.1,
    ) && !game.position().threatened(this.owner, x, y) && game.position().lands(
        this.owner,
        x,
        y,
    )) by {
        assert(valid.at(x, y) == stepped[y][x]);
    }
    let unit = game.get_player(this.owner).direction;
    assert(unit == game.position().seat(this.owner).direction);
    assert(unit_axis(unit));
    let right = Vector(-unit.1, unit.0);
    let left = Vector(unit.1, -unit.0);
    if can_castle(game, &this, pos, right, &threatened) {
        this.attack(*pos + right + right, game, &mut valid, None);
    }
    if can_castle(game, &this, pos, left, &threatened) {
        this.attack(*pos + left + left, game, &mut valid, None);
    }
    (valid, threatened)
}

impl Piece {
    /// The two masks of this piece's kind for a piece standing on `pos`:
    /// the squares it may move to, before moves that expose its owner's
    /// king are taken out, and the squares it threatens. An `Empty` piece
    /// claims nothing. The piece that moves is the one that the board
    /// holds on `pos`; of `self` only the kind is read.
    pub fn claim_squares(&self, pos: &Vector, game: &GameState) -> (masks: (
        Matrix<bool>,
        Matrix<bool>,
    ))
        requires
            game.position().wf(),
            self.kind != Kind::Empty ==> game.position().has(pos.0 as int, pos.1 as int),
            self.kind == Kind::King || self.kind == Kind::Pawn ==> game.position().has_seat(
                game.position().piece(pos.0 as int, pos.1 as int).owner,
            ),
        ensures
            same_shape(masks.0@, game.board@),
            same_shape(masks.1@, game.board@),
            forall|x: int, y: int|
                game.position().has(x, y) ==> #[trigger] masks.0.at(x, y)
                    == game.position().raw_valid(self.kind, pos.0 as int, pos.1 as int, x, y),
            forall|x: int, y: int|
                game.position().has(x, y) ==> #[trigger] masks.1.at(x, y)
                    == game.position().raw_threat(self.kind, pos.0 as int, pos.1 as int, x, y),
    {
        match self.kind {
            Kind::King => claim_king(pos, game),
            kind => claim_plain(kind, pos, game),
        }
    }
}

/// Whether relocating the piece on `start` to `end`, and nothing else,
/// leaves the king of `owner` threatened. The move is tried on a copy of
/// the state. The king is looked for on `end` if the piece that moves
/// stood on the recorded king position, else on the recorded position.
fn leaves_king_exposed(owner: usize, start: &Vector, end: &Vector, game: &GameState) -> (b: bool)
    requires
        game.position().wf(),
        game.position().has(start.0 as int, start.1 as int),
        game.position().has(end.0 as int, end.1 as int),
        game.position().has_seat(owner),
    ensures
        b == game.position().exposes_king(
            owner,
            start.0 as int,
            start.1 as int,
            end.0 as int,
            end.1 as int,
        ),
{
    let ghost p = game.position();
    proof {
        lemma_relocated_wf(p, start.0 as int, start.1 as int, end.0 as int, end.1 as int);
    }
    let mut speculation = game.clone();
    assert(speculation.position() == p);
    let moved = *speculation.board.get(start);
    speculation.board.put(end, moved);
    speculation.board.put(start, Piece::new());
    let ghost after = speculation.position();
    assert(after == p.relocated(start.0 as int, start.1 as int, end.0 as int, end.1 as int));
    let recorded = speculation.get_player(owner).king_pos;
    assert(recorded == p.seat(owner).king_pos);
    assert(p.sound(p.seats[owner - 1]));
    let king_pos = if *start == recorded {
        *end
    } else {
        recorded
    };
    let threatened = menace_mask(&speculation, owner);
    let exposed = threatened.get(&king_pos);
    assert(exposed == threatened.at(king_pos.0 as int, king_pos.1 as int));
    exposed
}

impl Piece {
    /// Takes out of both masks every valid destination that would leave
    /// the king of this piece's owner threatened: the move from `start` to
    /// that square is tried on a copy of the state, as a relocation without
    /// side effects, and the square on which the king then stands must not
    /// be threatened by any piece of another owner. When the piece that
    /// moves is the king itself, that square is the destination.
    pub fn speculate(
        &self,
        valid: Matrix<bool>,
        threat: Matrix<bool>,
        start: &Vector,
        game: &GameState,
    ) -> (masks: (Matrix<bool>, Matrix<bool>))
        requires
            game.position().wf(),
            game.position().has(start.0 as int, start.1 as int),
            same_shape(valid@, game.board@),
            same_shape(threat@, game.board@),
            game.position().has_seat(self.owner) || forall|x: int, y: int|
                game.position().has(x, y) ==> !#[trigger] valid.at(x, y),
        ensures
            same_shape(masks.0@, game.board@),
            same_shape(masks.1@, game.board@),
            forall|x: int, y: int|
                game.position().has(x, y) ==> #[trigger] masks.0.at(x, y) == (valid.at(x, y)
                    && !game.position().exposes_king(
                    self.owner,
                    start.0 as int,
                    start.1 as int,
                    x,
                    y,
                )),
            forall|x: int, y: int|
                game.position().has(x, y) ==> #[trigger] masks.1.at(x, y) == (threat.at(x, y) && !(
                valid.at(x, y) && game.position().exposes_king(
                    self.owner,
                    start.0 as int,
                    start.1 as int,
                    x,
                    y,
                ))),
    {
        let ghost p = game.position();
        let ghost sx = start.0 as int;
        let ghost sy = start.1 as int;
        let ghost valid0 = valid@;
        let ghost threat0 = threat@;
        assert(p.has_seat(self.owner) || forall|x: int, y: int|
            p.has(x, y) ==> !#[trigger] valid0[y][x]) by {
            if !p.has_seat(self.owner) {
                assert forall|x: int, y: int| p.has(x, y) implies !#[trigger] valid0[y][x] by {
                    assert(!valid.at(x, y));
                }
            }
        }
        let mut valid = valid;
        let mut threat = threat;
        let (rows, cols) = valid.shape();
        let mut row: usize = 0;
        while row < rows
            invariant
                row <= rows,
                rows == p.rows(),
                cols == p.cols(),
                p == game.position(),
                p.wf(),
                p.has(sx, sy),
                sx == start.0,
                sy == start.1,
                same_shape(valid@, game.board@),
                same_shape(threat@, game.board@),
                same_shape(valid0, game.board@),
                same_shape(threat0, game.board@),
                p.has_seat(self.owner) || forall|x: int, y: int|
                    p.has(x, y) ==> !#[trigger] valid0[y][x],
                forall|x: int, y: int|
                    p.has(x, y) ==> #[trigger] valid.at(x, y) == (valid0[y][x] && !(precedes(
                        x,
                        y,
                        0,
                        row as int,
                    ) && p.exposes_king(self.owner, sx, sy, x, y))),
                forall|x: int, y: int|
                    p.has(x, y) ==> #[trigger] threat.at(x, y) == (threat0[y][x] && !(precedes(
                        x,
                        y,
                        0,
                        row as int,
                    ) && valid0[y][x] && p.exposes_king(self.owner, sx, sy, x, y))),
            decreases rows - row,
        {
            let mut col: usize = 0;
            while col < cols
                invariant
                    row < rows,
                    col <= cols,
                    rows == p.rows(),
                    cols == p.cols(),
                    p == game.position(),
                    p.wf(),
                    p.has(sx, sy),
                    sx == start.0,
                    sy == start.1,
                    same_shape(valid@, game.board@),
                    same_shape(threat@, game.board@),
                    same_shape(valid0, game.board@),
                    same_shape(threat0, game.board@),
                    p.has_seat(self.owner) || forall|x: int, y: int|
                        p.has(x, y) ==> !#[trigger] valid0[y][x],
                    forall|x: int, y: int|
                        p.has(x, y) ==> #[trigger] valid.at(x, y) == (valid0[y][x] && !(precedes(
                            x,
                            y,
                            col as int,
                            row as int,
                        ) && p.exposes_king(self.owner, sx, sy, x, y))),
                    forall|x: int, y: int|
                        p.has(x, y) ==> #[trigger] threat.at(x, y) == (threat0[y][x] && !(precedes(
                            x,
                            y,
                            col as int,
                            row as int,
                        ) && valid0[y][x] && p.exposes_king(self.owner, sx, sy, x, y))),
                decreases cols - col,
            {
                let end = Vector(col as i32, row as i32);
                let marked = valid.get(&end);
                assert(marked == valid.at(col as int, row as int));
                if marked {
                    assert(valid0[row as int][col as int]);
                    if leaves_king_exposed(self.owner, start, &end, game) {
                        unmark(&mut valid, &end);
                        unmark(&mut threat, &end);
                    }
                }
                col += 1;
            }
            row += 1;
        }
        (valid, threat)
    }
}

/// The side effect of a king's move: a castle brings the rook over.
fn king_side_effect(recent_move: Move, game: &mut GameState)
    requires
        old(game).position().wf(),
        old(game).position().king_effect_ready(recent_move),
    ensures
        final(game)@ == (GameStateView {
            board: old(game).position().king_effect(recent_move),
            ..old(game)@
        }),
        final(game).position().wf(),
        same_shape(final(game).board@, old(game).board@),
{
    let ghost p = game.position();
    let start = recent_move.start;
    let end = recent_move.end;
    let across: i64 = end.0 as i64 - start.0 as i64;
    let along: i64 = end.1 as i64 - start.1 as i64;
    let is_castle = ((across == 2 || across == -2) && along == 0) || (across == 0 && (along == 2
        || along == -2));
    assert(is_castle == castle_move(recent_move));
    if is_castle {
        let direction = Vector(
            if across > 0 {
                1
            } else if across < 0 {
                -1
            } else {
                0
            },
            if along > 0 {
                1
            } else if along < 0 {
                -1
            } else {
                0
            },
        );
        let ghost sx = start.0 as int;
        let ghost sy = start.1 as int;
        let ghost dx = direction.0 as int;
        let ghost dy = direction.1 as int;
        let ghost k = p.rook_distance(sx, sy, dx, dy);
        assert(p.first_rook(sx, sy, dx, dy, k));
        // the rook is the first one in the direction of the move
        let mut target = start;
        let ghost mut j: int = 0;
        loop
            invariant_except_break
                0 <= j <= k,
                target.0 == step(sx, dx, j),
                target.1 == step(sy, dy, j),
                forall|i: int| 0 <= i < j ==> #[trigger] p.no_rook_at(sx, sy, dx, dy, i),
            invariant
                p == game.position(),
                p.wf(),
                king_step(dx, dy),
                dx == direction.0,
                dy == direction.1,
                p.first_rook(sx, sy, dx, dy, k),
            ensures
                j == k,
                target.0 == step(sx, dx, k),
                target.1 == step(sy, dy, k),
            decreases k - j,
        {
            proof {
                if j < k {
                    assert(p.no_rook_at(sx, sy, dx, dy, j));
                }
            }
            if game.get_piece(&target).kind == Kind::Rook {
                proof {
                    lemma_first_rook_unique(p, sx, sy, dx, dy, j, k);
                }
                break ;
            }
            proof {
                if j + 1 < k {
                    assert(p.no_rook_at(sx, sy, dx, dy, j + 1));
                }
            }
            target = target + direction;
            proof {
                j = j + 1;
            }
        }
        let rook = *game.board.get(&target);
        let beside = start + direction;
        let castled = Piece { kind: rook.kind, owner: rook.owner, has_moved: true };
        proof {
            lemma_put_wf(p, beside.0 as int, beside.1 as int, castled);
            lemma_put_wf(
                p.with_board(grid_put(p.board, beside.0 as int, beside.1 as int, castled)),
                target.0 as int,
                target.1 as int,
                vacant(),
            );
        }
        game.board.put(&beside, castled);
        game.board.put(&target, Piece::new());
    }
}

/// The side effect of a pawn's move: the pawn taken en passant leaves the
/// board, and a pawn that has reached the far edge becomes a queen.
fn pawn_side_effect(unit: Vector, recent_move: Move, game: &mut GameState)
    requires
        old(game).position().wf(),
        unit_axis(unit),
        old(game).position().pawn_effect_ready(unit, recent_move),
        old(game).position().has_seat(recent_move.piece.owner),
    ensures
        final(game)@ == (GameStateView {
            board: old(game).position().pawn_effect(unit, recent_move),
            ..old(game)@
        }),
        final(game).position().wf(),
        same_shape(final(game).board@, old(game).board@),
{
    let ghost p = game.position();
    let end_pos = recent_move.end;
    let is_capture = game.get_piece(&end_pos).kind != Kind::Empty;
    let at_far_edge = !game.in_bounds(&(end_pos + unit));
    if !is_capture && recent_move.is_diag() {
        proof {
            lemma_put_wf(p, end_pos.0 - unit.0, end_pos.1 - unit.1, vacant());
        }
        game.board.put(&Vector(end_pos.0 - unit.0, end_pos.1 - unit.1), Piece::new());
    }
    if at_far_edge {
        let queen = Piece { kind: Kind::Queen, owner: recent_move.piece.owner, has_moved: true };
        proof {
            lemma_put_wf(
                game.position(),
                recent_move.start.0 as int,
                recent_move.start.1 as int,
                queen,
            );
        }
        game.board.put(&recent_move.start, queen);
    }
}

impl Piece {
    /// What a move of a piece of this piece's kind from `pos` does beyond
    /// carrying the piece over. It is to be called while the move is made:
    /// after the move has been recorded as its player's last move, before
    /// the piece leaves `pos`. It reads the last move of the owner of the
    /// piece on `pos`, and changes nothing but the board.
    pub fn side_effects(&self, pos: &Vector, game: &mut GameState)
        requires
            old(game).position().wf(),
            old(game).position().effect_ready(self.kind, pos.0 as int, pos.1 as int),
        ensures
            final(game)@ == (GameStateView {
                board: old(game).position().after_effect(self.kind, pos.0 as int, pos.1 as int),
                ..old(game)@
            }),
            final(game).position().wf(),
            same_shape(final(game).board@, old(game).board@),
    {
        match self.kind {
            Kind::King => {
                let owner = game.get_piece(pos).owner;
                let recent_move = game.get_player(owner).recent_move.unwrap();
                king_side_effect(recent_move, game);
            },
            Kind::Pawn => {
                let owner = game.get_piece(pos).owner;
                let player = *game.get_player(owner);
                let recent_move = player.recent_move.unwrap();
                assert(player.seat() == game.position().seat(owner));
                assert(game.position().seats[owner - 1] == player.seat());
                pawn_side_effect(player.direction, recent_move, game);
            },
            _ => {},
        }
    }
}

} // verus!
