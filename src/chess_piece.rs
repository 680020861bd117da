use vstd::prelude::*;

use crate::chess_error::ChessError;
use crate::chess_piece_type::{get_chess_piece_type, piece_type_of, ChessPieceType};
use crate::chess_position::{distance, ChessPosition};

verus! {

/// The side a piece plays for.
#[derive(Debug, Clone, Copy, PartialEq, Eq, Structural)]
pub enum ChessPieceColor {
    White,
    Black,
}

/// The side a board letter stands for: upper case is black, lower case white.
pub open spec fn piece_color_of(c: char) -> Option<ChessPieceColor> {
    if c == 'R' || c == 'D' || c == 'C' || c == 'A' || c == 'T' || c == 'P' {
        Some(ChessPieceColor::Black)
    } else if c == 'r' || c == 'd' || c == 'c' || c == 'a' || c == 't' || c == 'p' {
        Some(ChessPieceColor::White)
    } else {
        None
    }
}

/// The side a board letter stands for, or `InvalidPiece`.
pub fn get_chess_piece_color(chess_piece_char: char) -> (r: Result<ChessPieceColor, ChessError>)
    ensures
        match piece_color_of(chess_piece_char) {
            Some(c) => r == Ok::<ChessPieceColor, ChessError>(c),
            None => r == Err::<ChessPieceColor, ChessError>(ChessError::InvalidPiece),
        },
{
    match chess_piece_char {
        'R' | 'D' | 'C' | 'A' | 'T' | 'P' => Ok(ChessPieceColor::Black),
        'r' | 'd' | 'c' | 'a' | 't' | 'p' => Ok(ChessPieceColor::White),
        _ => Err(ChessError::InvalidPiece),
    }
}

/// Whether a piece of kind `t` on row `fr`, column `fc` attacks the square
/// on row `tr`, column `tc`.
pub open spec fn attacks(t: ChessPieceType, fr: nat, fc: nat, tr: nat, tc: nat) -> bool {
    let dx = distance(fr, tr);
    let dy = distance(fc, tc);
    match t {
        ChessPieceType::King => dx <= 1 && dy <= 1 && !(dx == 0 && dy == 0),
        ChessPieceType::Queen => fr == tr || fc == tc || dx == dy,
        ChessPieceType::Rook => fr == tr || fc == tc,
        ChessPieceType::Bishop => dx == dy,
        ChessPieceType::Knight => (dx == 1 && dy == 2) || (dx == 2 && dy == 1),
        ChessPieceType::Pawn => dx == 1 && dy == 1,
    }
}

/// A piece on the board.
#[derive(Debug, Clone, Copy, PartialEq, Eq, Structural)]
pub struct ChessPiece {
    piece_type: ChessPieceType,
    position: ChessPosition,
    color: ChessPieceColor,
}

impl ChessPiece {
    pub closed spec fn kind_spec(&self) -> ChessPieceType {
        self.piece_type
    }

    pub closed spec fn position_spec(&self) -> ChessPosition {
        self.position
    }

    pub closed spec fn color_spec(&self) -> ChessPieceColor {
        self.color
    }

    /// Whether this piece attacks the square of `another_piece`.
    pub open spec fn captures_spec(&self, another_piece: &ChessPiece) -> bool {
        attacks(
            self.kind_spec(),
            self.position_spec().row_spec(),
            self.position_spec().column_spec(),
            another_piece.position_spec().row_spec(),
            another_piece.position_spec().column_spec(),
        )
    }

    /// The piece a board letter names, standing at `row`, `column`; fails
    /// with `InvalidPiece` for any other letter.
    pub fn chess_piece_from(chess_piece_char: char, row: usize, column: usize) -> (r: Result<
        ChessPiece,
        ChessError,
    >)
        ensures
            match (piece_type_of(chess_piece_char), piece_color_of(chess_piece_char)) {
                (Some(t), Some(c)) => r is Ok && r->Ok_0.kind_spec() == t && r->Ok_0.color_spec()
                    == c && r->Ok_0.position_spec().row_spec() == row
                    && r->Ok_0.position_spec().column_spec() == column,
                _ => r == Err::<ChessPiece, ChessError>(ChessError::InvalidPiece),
            },
    {
        let piece_type = match get_chess_piece_type(chess_piece_char) {
            Ok(t) => t,
            Err(e) => return Err(e),
        };
        let position = ChessPosition::create_position(row, column);
        let color = match get_chess_piece_color(chess_piece_char) {
            Ok(c) => c,
            Err(e) => return Err(e),
        };
        Ok(ChessPiece { piece_type, position, color })
    }

    pub fn is_black_piece(&self) -> (r: bool)
        ensures
            r == (self.color_spec() == ChessPieceColor::Black),
    {
        match self.color {
            ChessPieceColor::Black => true,
            ChessPieceColor::White => false,
        }
    }

    pub fn is_white_piece(&self) -> (r: bool)
        ensures
            r == (self.color_spec() == ChessPieceColor::White),
    {
        match self.color {
            ChessPieceColor::White => true,
            ChessPieceColor::Black => false,
        }
    }

    /// Whether this piece can take `another_piece` with its next move.
    pub fn can_capture(&self, another_piece: &ChessPiece) -> (r: bool)
        ensures
            r == self.captures_spec(another_piece),
    {
        self.capture(another_piece)
    }

    fn capture(&self, another_piece: &ChessPiece) -> (r: bool)
        ensures
            r == self.captures_spec(another_piece),
    {
        match self.piece_type {
            ChessPieceType::King => self.king_capture(another_piece),
            ChessPieceType::Queen => self.queen_capture(another_piece),
            ChessPieceType::Rook => self.rook_capture(another_piece),
            ChessPieceType::Bishop => self.bishop_capture(another_piece),
            ChessPieceType::Knight => self.knight_capture(another_piece),
            ChessPieceType::Pawn => self.pawn_capture(another_piece),
        }
    }

    fn king_capture(&self, another_piece: &ChessPiece) -> (r: bool)
        ensures
            r == self.position_spec().adjacent_spec(&another_piece.position_spec()),
    {
        self.position.is_adjacent(&another_piece.position)
    }

    fn queen_capture(&self, another_piece: &ChessPiece) -> (r: bool)
        ensures
            r == (self.position_spec().same_line_spec(&another_piece.position_spec())
                || self.position_spec().diagonal_spec(&another_piece.position_spec())),
    {
        self.position.are_aligned(&another_piece.position)
    }

    fn rook_capture(&self, another_piece: &ChessPiece) -> (r: bool)
        ensures
            r == self.position_spec().same_line_spec(&another_piece.position_spec()),
    {
        self.position.are_in_same_row_or_column(&another_piece.position)
    }

    fn bishop_capture(&self, another_piece: &ChessPiece) -> (r: bool)
        ensures
            r == self.position_spec().diagonal_spec(&another_piece.position_spec()),
    {
        self.position.are_in_diagonal(&another_piece.position)
    }

    fn knight_capture(&self, another_piece: &ChessPiece) -> (r: bool)
        ensures
            r == self.position_spec().l_spec(&another_piece.position_spec()),
    {
        self.position.are_in_l(&another_piece.position)
    }

    fn pawn_capture(&self, another_piece: &ChessPiece) -> (r: bool)
        ensures
            r == self.position_spec().diagonal_1_spec(&another_piece.position_spec()),
    {
        self.position.are_diagonal_1(&another_piece.position)
    }
}

} // verus!
