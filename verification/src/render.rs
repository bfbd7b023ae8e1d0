//! The board and the state of a game as text, for a terminal.

use crate::board::{grid_cols, grid_rect, grid_rows, same_shape, Board, Matrix};
use crate::game::{Game, Move, State};
use crate::notation::{decimal, has_letter, notation, push_decimal};
use crate::piece::{Kind, Piece};
use vstd::prelude::*;
use vstd::string::StringExecFns;

verus! {

/// `unit` written `n` times.
pub open spec fn repeated(unit: Seq<char>, n: nat) -> Seq<char>
    decreases n,
{
    if n == 0 {
        Seq::empty()
    } else {
        repeated(unit, (n - 1) as nat) + unit
    }
}

/// The line between two ranks of a board of `cols` files.
pub open spec fn border(cols: nat) -> Seq<char> {
    repeated("+-----"@, cols) + "+\n"@
}

/// The part of a line above or below a square: two stars if the square is
/// marked.
pub open spec fn mark_cell(on: bool) -> Seq<char> {
    if on {
        "| * * "@
    } else {
        "|     "@
    }
}

/// The part of a line that names the piece on a square: the letter of its
/// kind, a colon and its owner's number. An unoccupied square is left
/// blank if `blank_if_vacant` holds.
pub open spec fn piece_cell(piece: Piece, blank_if_vacant: bool) -> Seq<char> {
    if blank_if_vacant && piece.is_vacant() {
        "|     "@
    } else {
        "| "@ + seq![piece.kind.spec_letter()] + ":"@ + decimal(piece.owner as nat) + " "@
    }
}

/// Whether the mask, if there is one, marks file `x` of the rank.
pub open spec fn marks_file(marks: Option<Seq<bool>>, x: int) -> bool {
    match marks {
        Some(m) => m[x],
        None => false,
    }
}

/// The cells above or below the first `n` squares of a rank.
pub open spec fn marks_line(marks: Option<Seq<bool>>, n: nat) -> Seq<char>
    decreases n,
{
    if n == 0 {
        Seq::empty()
    } else {
        marks_line(marks, (n - 1) as nat) + mark_cell(marks_file(marks, n - 1))
    }
}

/// The cells that name the pieces on the first `n` squares of a rank.
pub open spec fn pieces_line(row: Seq<Piece>, n: nat, blank_if_vacant: bool) -> Seq<char>
    decreases n,
{
    if n == 0 {
        Seq::empty()
    } else {
        pieces_line(row, (n - 1) as nat, blank_if_vacant) + piece_cell(row[n - 1], blank_if_vacant)
    }
}

/// The four lines of a rank: the border above it, a line of marks, the
/// pieces, and a line of marks again. With a mask, unoccupied squares are
/// left blank; without one, every square names what it holds.
pub open spec fn rank_text(row: Seq<Piece>, marks: Option<Seq<bool>>) -> Seq<char> {
    border(row.len()) + marks_line(marks, row.len()) + "|\n"@ + pieces_line(
        row,
        row.len(),
        marks is Some,
    ) + "|\n"@ + marks_line(marks, row.len()) + "|\n"@
}

/// The marks of rank `y`, if there is a mask.
pub open spec fn marks_of_rank(marks: Option<Seq<Seq<bool>>>, y: int) -> Option<Seq<bool>> {
    match marks {
        Some(m) => Some(m[y]),
        None => None,
    }
}

/// The top `n` ranks of the board, the last rank first.
pub open spec fn ranks_text(board: Seq<Seq<Piece>>, marks: Option<Seq<Seq<bool>>>, n: nat) -> Seq<
    char,
>
    decreases n,
{
    if n == 0 {
        Seq::empty()
    } else {
        ranks_text(board, marks, (n - 1) as nat) + rank_text(
            board[board.len() - n],
            marks_of_rank(marks, board.len() - n),
        )
    }
}

/// The board as text: every rank from the last to the first, then the
/// border below the first.
pub open spec fn drawing(board: Seq<Seq<Piece>>, marks: Option<Seq<Seq<bool>>>) -> Seq<char> {
    ranks_text(board, marks, board.len()) + border(board[0].len())
}

/// The player that moved before the player to move, counted from 0.
pub open spec fn previous_player(turn: usize, players: nat) -> int {
    (turn + players - 2) % (players as int)
}

/// The line that tells a move.
pub open spec fn move_text(m: Move) -> Seq<char> {
    "move: "@ + seq![m.piece.kind.spec_letter()] + ":"@ + decimal(m.piece.owner as nat) + " from "@
        + notation(m.start) + " to "@ + notation(m.end) + "\n"@
}

/// The line that tells the end state of the player to move, if it is not
/// the normal one.
pub open spec fn state_text(turn: usize, state: State) -> Seq<char> {
    match state {
        State::Checkmate => "player "@ + decimal(turn as nat) + " is in checkmate!\n"@,
        State::Check => "player "@ + decimal(turn as nat) + " is in check!\n"@,
        State::Stalemate => "player "@ + decimal(turn as nat) + " is in stalemate!\n"@,
        State::Normal => Seq::empty(),
    }
}

/// What is told of a game below its board: the last move of the player
/// that moved before the player to move, the player to move, the halfmove
/// counter, and the end state of the player to move.
pub open spec fn status_text(
    last: Option<Move>,
    turn: usize,
    halfmove_counter: u32,
    state: State,
) -> Seq<char> {
    (match last {
        Some(m) => move_text(m),
        None => Seq::empty(),
    }) + "player to move: "@ + decimal(turn as nat) + "\n"@ + "halfmove counter: "@ + decimal(
        halfmove_counter as nat,
    ) + "\n"@ + state_text(turn, state)
}

fn push_border(text: &mut String, cols: usize)
    ensures
        final(text)@ == old(text)@ + border(cols as nat),
{
    let mut i: usize = 0;
    while i < cols
        invariant
            i <= cols,
            text@ == old(text)@ + repeated("+-----"@, i as nat),
        decreases cols - i,
    {
        text.append("+-----");
        i += 1;
        assert(text@ =~= old(text)@ + repeated("+-----"@, i as nat));
    }
    text.append("+\n");
    assert(text@ =~= old(text)@ + border(cols as nat));
}

fn push_marks(text: &mut String, marks: Option<&Vec<bool>>, cols: usize)
    requires
        marks matches Some(m) ==> m@.len() == cols,
    ensures
        final(text)@ == old(text)@ + marks_line(
            match marks {
                Some(m) => Some(m@),
                None => None,
            },
            cols as nat,
        ) + "|\n"@,
{
    let ghost row = match marks {
        Some(m) => Some(m@),
        None => None,
    };
    let mut i: usize = 0;
    while i < cols
        invariant
            i <= cols,
            marks matches Some(m) ==> m@.len() == cols,
            row == match marks {
                Some(m) => Some(m@),
                None => None,
            },
            text@ == old(text)@ + marks_line(row, i as nat),
        decreases cols - i,
    {
        let on = match marks {
            Some(m) => m[i],
            None => false,
        };
        assert(on == marks_file(row, i as int));
        if on {
            text.append("| * * ");
        } else {
            text.append("|     ");
        }
        i += 1;
        assert(text@ =~= old(text)@ + marks_line(row, i as nat));
    }
    text.append("|\n");
}

fn push_pieces(text: &mut String, row: &Vec<Piece>, blank_if_vacant: bool)
    ensures
        final(text)@ == old(text)@ + pieces_line(row@, row@.len(), blank_if_vacant) + "|\n"@,
{
    let mut i: usize = 0;
    while i < row.len()
        invariant
            i <= row@.len(),
            text@ == old(text)@ + pieces_line(row@, i as nat, blank_if_vacant),
        decreases row@.len() - i,
    {
        let piece = row[i];
        let ghost before = text@;
        if blank_if_vacant && piece.kind == Kind::Empty {
            text.append("|     ");
        } else {
            text.append("| ");
            text.push(piece.kind.letter());
            text.append(":");
            push_decimal(text, piece.owner as u64);
            text.append(" ");
        }
        assert(text@ =~= before + piece_cell(piece, blank_if_vacant));
        i += 1;
        assert(text@ =~= old(text)@ + pieces_line(row@, i as nat, blank_if_vacant));
    }
    text.append("|\n");
}

/// Appends the four lines of a rank.
fn push_rank(text: &mut String, row: &Vec<Piece>, marks: Option<&Vec<bool>>)
    requires
        marks matches Some(m) ==> m@.len() == row@.len(),
    ensures
        final(text)@ == old(text)@ + rank_text(
            row@,
            match marks {
                Some(m) => Some(m@),
                None => None,
            },
        ),
{
    let cols = row.len();
    push_border(text, cols);
    push_marks(text, marks, cols);
    push_pieces(text, row, marks.is_some());
    push_marks(text, marks, cols);
    assert(text@ =~= old(text)@ + rank_text(
        row@,
        match marks {
            Some(m) => Some(m@),
            None => None,
        },
    ));
}

/// The board as text, with the marks of a mask if one is given.
fn draw(board: &Board, marks: Option<&Matrix<bool>>) -> (text: String)
    requires
        grid_rect(board@),
        grid_rows(board@) >= 1,
        marks matches Some(m) ==> same_shape(m@, board@),
    ensures
        text@ == drawing(
            board@,
            match marks {
                Some(m) => Some(m@),
                None => None,
            },
        ),
{
    let ghost grid = match marks {
        Some(m) => Some(m@),
        None => None,
    };
    let (rows, cols) = board.shape();
    let mut text = String::new();
    let mut n: usize = 0;
    while n < rows
        invariant
            n <= rows,
            rows == grid_rows(board@),
            cols == grid_cols(board@),
            grid_rect(board@),
            marks matches Some(m) ==> same_shape(m@, board@),
            grid == match marks {
                Some(m) => Some(m@),
                None => None,
            },
            text@ == ranks_text(board@, grid, n as nat),
        decreases rows - n,
    {
        let y = rows - 1 - n;
        let row = &board.0.0[y];
        assert(row@ == board@[y as int]);
        assert(row@.len() == cols);
        let hrow = match marks {
            Some(m) => {
                assert(m@[y as int].len() == grid_cols(m@));
                Some(&m.0[y])
            },
            None => None,
        };
        let ghost line = marks_of_rank(grid, y as int);
        assert(line == match hrow {
            Some(h) => Some(h@),
            None => None,
        });
        push_rank(&mut text, row, hrow);
        n += 1;
        assert(board@.len() - n == y);
        assert(text@ =~= ranks_text(board@, grid, n as nat));
    }
    push_border(&mut text, board.0.0[0].len());
    text
}

impl Board {
    /// The board as text with the squares of `highlighting` marked by
    /// stars and unoccupied squares left blank.
    pub fn drawing(&self, highlighting: &Matrix<bool>) -> (text: String)
        requires
            same_shape(highlighting@, self@),
            grid_rows(self@) >= 1,
        ensures
            text@ == drawing(self@, Some(highlighting@)),
    {
        draw(self, Some(highlighting))
    }

    /// The board as text, every square naming what it holds.
    pub fn to_text(&self) -> (text: String)
        requires
            grid_rect(self@),
            grid_rows(self@) >= 1,
        ensures
            text@ == drawing(self@, None),
    {
        draw(self, None)
    }
}

fn push_move(text: &mut String, m: &Move)
    requires
        has_letter(m.start),
        has_letter(m.end),
    ensures
        final(text)@ == old(text)@ + move_text(*m),
{
    text.append("move: ");
    text.push(m.piece.kind.letter());
    text.append(":");
    push_decimal(text, m.piece.owner as u64);
    text.append(" from ");
    match m.start.to_notation() {
        Ok(start) => {
            text.append(start.as_str());
        },
        Err(_) => {},
    }
    text.append(" to ");
    match m.end.to_notation() {
        Ok(end) => {
            text.append(end.as_str());
        },
        Err(_) => {},
    }
    text.append("\n");
    assert(text@ =~= old(text)@ + move_text(*m));
}

fn push_state(text: &mut String, turn: usize, state: State)
    ensures
        final(text)@ == old(text)@ + state_text(turn, state),
{
    match state {
        State::Checkmate => {
            text.append("player ");
            push_decimal(text, turn as u64);
            text.append(" is in checkmate!\n");
        },
        State::Check => {
            text.append("player ");
            push_decimal(text, turn as u64);
            text.append(" is in check!\n");
        },
        State::Stalemate => {
            text.append("player ");
            push_decimal(text, turn as u64);
            text.append(" is in stalemate!\n");
        },
        State::Normal => {},
    }
    assert(text@ =~= old(text)@ + state_text(turn, state));
}

impl Game {
    /// The game as text: the board with the mask's squares marked, then
    /// the last move of the player that moved before the player to move,
    /// the player to move, the halfmove counter and the end state of the
    /// player to move.
    pub fn drawing(&self) -> (text: String)
        requires
            self.wf(),
            grid_rows(self.state.board@) >= 1,
            self@.state.players[previous_player(
                self.state.turn,
                self.state.players@.len(),
            )].recent_move matches Some(m) ==> has_letter(m.start) && has_letter(m.end),
        ensures
            text@ == drawing(self@.state.board, Some(self@.valid)) + status_text(
                self@.state.players[previous_player(
                    self.state.turn,
                    self.state.players@.len(),
                )].recent_move,
                self.state.turn,
                self.state.halfmove_counter,
                self@.state.players[self.state.turn - 1].state,
            ),
    {
        let mut text = self.state.board.drawing(&self.valid);
        let turn = self.state.turn;
        let count = self.state.players.len();
        let previous = if turn == 1 {
            count - 1
        } else {
            turn - 2
        };
        assert(previous == previous_player(turn, count as nat)) by {
            if turn == 1 {
                vstd::arithmetic::div_mod::lemma_small_mod((count - 1) as nat, count as nat);
            } else {
                assert(turn + count - 2 == (turn - 2) + count);
                assert(((turn - 2) + count) % (count as int) == turn - 2) by {
                    vstd::arithmetic::div_mod::lemma_mod_add_multiples_vanish(
                        turn - 2,
                        count as int,
                    );
                    vstd::arithmetic::div_mod::lemma_small_mod((turn - 2) as nat, count as nat);
                }
            }
        }
        let ghost board_text = text@;
        match &self.state.players[previous].recent_move {
            Some(recent_move) => {
                push_move(&mut text, recent_move);
            },
            None => {},
        }
        let ghost with_move = text@;
        text.append("player to move: ");
        push_decimal(&mut text, turn as u64);
        text.append("\n");
        text.append("halfmove counter: ");
        push_decimal(&mut text, self.state.halfmove_counter as u64);
        text.append("\n");
        push_state(&mut text, turn, self.current_player().state);
        assert(text@ =~= board_text + status_text(
            self@.state.players[previous as int].recent_move,
            turn,
            self.state.halfmove_counter,
            self@.state.players[turn - 1].state,
        ));
        text
    }
}

} // verus!
