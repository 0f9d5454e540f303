use vstd::prelude::*;
use vstd::string::StringSliceAdditionalSpecFns;

verus! {

#[derive(Clone, Copy, PartialEq, Eq, Structural, Debug)]
pub enum Color {
    White,
    Black,
}

#[derive(Clone, Copy, PartialEq, Eq, Structural, Debug)]
pub enum PieceType {
    King,
    Queen,
    Rook,
    Bishop,
    Knight,
    Pawn,
}

#[derive(Clone, Copy, PartialEq, Eq, Structural, Debug)]
pub enum Piece {
    White(PieceType),
    Black(PieceType),
}

impl Piece {
    pub open spec fn color_of(self) -> Color {
        match self {
            Piece::White(_) => Color::White,
            Piece::Black(_) => Color::Black,
        }
    }

    pub fn get_color(&self) -> (r: Color)
        ensures
            r == self.color_of(),
    {
        match self {
            Piece::White(_) => Color::White,
            Piece::Black(_) => Color::Black,
        }
    }
}

/// A square of the board: `row` 0 to 7 for ranks 1 to 8, `column` 0 to 7
/// for files a to h.
#[derive(Clone, Copy, PartialEq, Eq, Structural, Debug)]
pub struct Position {
    pub row: usize,
    pub column: usize,
}

/// The square that two bytes such as `e2` name, if they name one.
pub open spec fn square_of(b: Seq<u8>) -> Option<Position> {
    if b.len() == 2 && 97 <= b[0] <= 104 && 49 <= b[1] <= 56 {
        Some(Position { row: (b[1] - 49) as usize, column: (b[0] - 97) as usize })
    } else {
        None
    }
}

#[derive(Debug)]
pub enum Error {
    OpponentGone(String),
    BadMove(String),
    Other(String),
}

impl Position {
    pub open spec fn valid(self) -> bool {
        self.row < 8 && self.column < 8
    }

    pub open spec fn index(self) -> int {
        self.row * 8 + self.column
    }

    pub fn is_valid(&self) -> (r: bool)
        ensures
            r == self.valid(),
    {
        self.row < 8 && self.column < 8
    }

    fn from_bytes(b: &[u8], start: usize) -> (r: Option<Position>)
        requires
            start + 2 <= b@.len(),
        ensures
            r == square_of(b@.subrange(start as int, start + 2)),
    {
        let col = b[start];
        let row = b[start + 1];
        if 97 <= col && col <= 104 && 49 <= row && row <= 56 {
            Some(Position { row: (row - 49) as usize, column: (col - 97) as usize })
        } else {
            None
        }
    }

    /// Reads a square written as a file letter and a rank digit, such as `e2`.
    pub fn try_from(value: &str) -> (r: Result<Position, Error>)
        ensures
            r is Ok <==> square_of(value.spec_bytes()) is Some,
            r matches Ok(p) ==> square_of(value.spec_bytes()) == Some(p),
            r is Err ==> r matches Err(Error::Other(_)),
    {
        let b = value.as_bytes();
        if b.len() != 2 {
            return Err(Error::Other("Invalid position".to_string()));
        }
        assert(b@.subrange(0, 2) =~= b@);
        match Position::from_bytes(b, 0) {
            Some(p) => Ok(p),
            None => Err(Error::Other("Invalid position".to_string())),
        }
    }
}

#[derive(Clone, Copy, PartialEq, Eq, Structural, Debug)]
pub enum Turn {
    WhitePlays,
    BlackPlays,
}

impl Turn {
    pub open spec fn color_of(self) -> Color {
        match self {
            Turn::WhitePlays => Color::White,
            Turn::BlackPlays => Color::Black,
        }
    }

    pub open spec fn next(self) -> Turn {
        match self {
            Turn::WhitePlays => Turn::BlackPlays,
            Turn::BlackPlays => Turn::WhitePlays,
        }
    }

    pub fn get_color(&self) -> (r: Color)
        ensures
            r == self.color_of(),
    {
        match self {
            Turn::WhitePlays => Color::White,
            Turn::BlackPlays => Color::Black,
        }
    }

    pub fn change(&mut self)
        ensures
            *final(self) == old(self).next(),
    {
        *self = match self {
            Turn::WhitePlays => Turn::BlackPlays,
            Turn::BlackPlays => Turn::WhitePlays,
        };
    }
}

/// The piece on the back rank at `column`, from the a-file on.
pub open spec fn back_rank(column: int) -> PieceType {
    if column == 0 || column == 7 {
        PieceType::Rook
    } else if column == 1 || column == 6 {
        PieceType::Knight
    } else if column == 2 || column == 5 {
        PieceType::Bishop
    } else if column == 3 {
        PieceType::Queen
    } else {
        PieceType::King
    }
}

/// What stands on a square when a game begins.
pub open spec fn initial_piece(row: int, column: int) -> Option<Piece> {
    if row == 0 {
        Some(Piece::White(back_rank(column)))
    } else if row == 1 {
        Some(Piece::White(PieceType::Pawn))
    } else if row == 6 {
        Some(Piece::Black(PieceType::Pawn))
    } else if row == 7 {
        Some(Piece::Black(back_rank(column)))
    } else {
        None
    }
}

fn back_rank_piece(column: usize) -> (r: PieceType)
    ensures
        r == back_rank(column as int),
{
    if column == 0 || column == 7 {
        PieceType::Rook
    } else if column == 1 || column == 6 {
        PieceType::Knight
    } else if column == 2 || column == 5 {
        PieceType::Bishop
    } else if column == 3 {
        PieceType::Queen
    } else {
        PieceType::King
    }
}

/// The 64 squares, rank by rank from the first.
pub struct ChessBoard {
    state: Vec<Option<Piece>>,
}

impl ChessBoard {
    pub closed spec fn view(&self) -> Seq<Option<Piece>> {
        self.state@
    }

    pub fn new() -> (r: ChessBoard)
        ensures
            r@ == Seq::new(64, |i: int| initial_piece(i / 8, i % 8)),
    {
        let mut state: Vec<Option<Piece>> = Vec::new();
        let mut i: usize = 0;
        while i < 64
            invariant
                i <= 64,
                state@ == Seq::new(i as nat, |k: int| initial_piece(k / 8, k % 8)),
            decreases 64 - i,
        {
            let row = i / 8;
            let column = i % 8;
            let piece = if row == 0 {
                Some(Piece::White(back_rank_piece(column)))
            } else if row == 1 {
                Some(Piece::White(PieceType::Pawn))
            } else if row == 6 {
                Some(Piece::Black(PieceType::Pawn))
            } else if row == 7 {
                Some(Piece::Black(back_rank_piece(column)))
            } else {
                None
            };
            state.push(piece);
            i = i + 1;
            assert(state@ =~= Seq::new(i as nat, |k: int| initial_piece(k / 8, k % 8)));
        }
        ChessBoard { state }
    }

    pub fn get_field(&self, position: Position) -> (r: Option<Piece>)
        requires
            self@.len() == 64,
        ensures
            r == (if position.valid() {
                self@[position.index()]
            } else {
                None
            }),
    {
        if position.is_valid() {
            self.state[position.row * 8 + position.column]
        } else {
            None
        }
    }

    pub fn set_field(&mut self, position: Position, piece: Option<Piece>)
        requires
            old(self)@.len() == 64,
            position.valid(),
        ensures
            final(self)@ == old(self)@.update(position.index(), piece),
    {
        self.state.set(position.row * 8 + position.column, piece);
    }
}

/// Why the side to move may not move from `from` to `to`, as the first
/// check that fails says it, or `None` where the move is allowed: both squares
/// lie on the board, `from` holds a piece of the side to move, and `to` holds
/// none of its own.
pub open spec fn move_refusal(board: Seq<Option<Piece>>, turn: Turn, from: Position, to: Position) -> Option<
    Seq<char>,
> {
    if !from.valid() || !to.valid() {
        Some("Invalid position"@)
    } else {
        match board[from.index()] {
            None => Some("No piece at position"@),
            Some(p) => if p.color_of() != turn.color_of() {
                Some("Not your turn"@)
            } else {
                match board[to.index()] {
                    Some(q) => if q.color_of() == p.color_of() {
                        Some("Cannot take your own piece"@)
                    } else {
                        None
                    },
                    None => None,
                }
            },
        }
    }
}

pub open spec fn move_allowed(board: Seq<Option<Piece>>, turn: Turn, from: Position, to: Position) -> bool {
    move_refusal(board, turn, from, to) is None
}

/// The board after the piece on `from` goes to `to`.
pub open spec fn moved(board: Seq<Option<Piece>>, from: Position, to: Position) -> Seq<Option<Piece>> {
    board.update(to.index(), board[from.index()]).update(from.index(), None)
}

/// The two squares that a move such as `e2-e4` names, if it names two.
pub open spec fn move_squares(b: Seq<u8>) -> Option<(Position, Position)> {
    if b.len() == 5 && b[2] == 45 {
        match (square_of(b.subrange(0, 2)), square_of(b.subrange(3, 5))) {
            (Some(f), Some(t)) => Some((f, t)),
            _ => None,
        }
    } else {
        None
    }
}

/// A game in progress: the board and the side to move.
pub struct GameState {
    board: ChessBoard,
    current_turn: Turn,
}

impl GameState {
    pub closed spec fn board(&self) -> Seq<Option<Piece>> {
        self.board@
    }

    pub closed spec fn turn(&self) -> Turn {
        self.current_turn
    }

    pub open spec fn wf(&self) -> bool {
        self.board().len() == 64
    }

    /// A new game: pieces in their starting places, white to move.
    pub fn new() -> (r: GameState)
        ensures
            r.wf(),
            r.board() == Seq::new(64, |i: int| initial_piece(i / 8, i % 8)),
            r.turn() == Turn::WhitePlays,
    {
        GameState { board: ChessBoard::new(), current_turn: Turn::WhitePlays }
    }

    pub fn get_field(&self, position: Position) -> (r: Option<Piece>)
        requires
            self.wf(),
        ensures
            r == (if position.valid() {
                self.board()[position.index()]
            } else {
                None
            }),
    {
        self.board.get_field(position)
    }

    fn set_field(&mut self, position: Position, piece: Option<Piece>)
        requires
            old(self).wf(),
            position.valid(),
        ensures
            final(self).board() == old(self).board().update(position.index(), piece),
            final(self).turn() == old(self).turn(),
    {
        self.board.set_field(position, piece);
    }

    fn move_piece(&mut self, position_from: Position, position_to: Position)
        requires
            old(self).wf(),
            position_from.valid(),
            position_to.valid(),
        ensures
            final(self).wf(),
            final(self).board() == moved(old(self).board(), position_from, position_to),
            final(self).turn() == old(self).turn().next(),
    {
        let piece = self.get_field(position_from);
        self.set_field(position_to, piece);
        self.set_field(position_from, None);
        self.current_turn.change();
    }

    /// Moves a piece of the side to move, taking what stands on the target
    /// square; the turn passes to the other side. A move that is not allowed
    /// is refused and changes nothing.
    pub fn make_move(&mut self, position_from: Position, position_to: Position) -> (r: Result<Option<Piece>, Error>)
        requires
            old(self).wf(),
        ensures
            final(self).wf(),
            r is Ok <==> move_allowed(old(self).board(), old(self).turn(), position_from, position_to),
            r matches Ok(taken) ==> taken == old(self).board()[position_to.index()]
                && final(self).board() == moved(old(self).board(), position_from, position_to)
                && final(self).turn() == old(self).turn().next(),
            r is Err ==> (r matches Err(Error::BadMove(_))) && final(self).board() == old(self).board()
                && final(self).turn() == old(self).turn(),
            r matches Err(Error::BadMove(m)) ==> move_refusal(
                old(self).board(),
                old(self).turn(),
                position_from,
                position_to,
            ) == Some(m@),
    {
        if !position_from.is_valid() || !position_to.is_valid() {
            return Err(Error::BadMove("Invalid position".to_string()));
        }
        let field_from = self.get_field(position_from);
        let field_to = self.get_field(position_to);
        let piece_from = match field_from {
            Some(piece) => piece,
            None => return Err(Error::BadMove("No piece at position".to_string())),
        };
        let piece_from_color = piece_from.get_color();
        if piece_from_color != self.current_turn.get_color() {
            return Err(Error::BadMove("Not your turn".to_string()));
        }
        let piece_to = match field_to {
            Some(piece) => piece,
            None => {
                self.move_piece(position_from, position_to);
                return Ok(None);
            },
        };
        if piece_from_color == piece_to.get_color() {
            return Err(Error::BadMove("Cannot take your own piece".to_string()));
        }
        self.move_piece(position_from, position_to);
        Ok(Some(piece_to))
    }

    /// Plays a move written as two squares joined by a dash, such as `e2-e4`.
    pub fn handle_move(&mut self, move_str: &str) -> (r: Result<(), Error>)
        requires
            old(self).wf(),
        ensures
            final(self).wf(),
            move_squares(move_str.spec_bytes()) is None ==> (r matches Err(Error::Other(_)))
                && final(self).board() == old(self).board() && final(self).turn() == old(self).turn(),
            move_squares(move_str.spec_bytes()) matches Some((f, t)) ==> {
                &&& (r is Ok <==> move_allowed(old(self).board(), old(self).turn(), f, t))
                &&& r is Ok ==> final(self).board() == moved(old(self).board(), f, t)
                    && final(self).turn() == old(self).turn().next()
                &&& r is Err ==> (r matches Err(Error::BadMove(_))) && final(self).board() == old(self).board()
                    && final(self).turn() == old(self).turn()
                &&& r matches Err(Error::BadMove(m)) ==> move_refusal(old(self).board(), old(self).turn(), f, t)
                    == Some(m@)
            },
    {
        let b = move_str.as_bytes();
        if b.len() != 5 || b[2] != 45 {
            return Err(Error::Other("Invalid move format".to_string()));
        }
        let from_pos = match Position::from_bytes(b, 0) {
            Some(p) => p,
            None => return Err(Error::Other("Invalid start position".to_string())),
        };
        let to_pos = match Position::from_bytes(b, 3) {
            Some(p) => p,
            None => return Err(Error::Other("Invalid end position".to_string())),
        };
        match self.make_move(from_pos, to_pos) {
            Ok(_) => Ok(()),
            Err(e) => Err(e),
        }
    }

    pub fn current_player(&self) -> (r: Turn)
        ensures
            r == self.turn(),
    {
        self.current_turn
    }
}

} // verus!
