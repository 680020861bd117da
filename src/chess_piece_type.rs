use vstd::prelude::*;

use crate::chess_error::ChessError;

verus! {

/// The six kinds of chess piece.
#[derive(Debug, Clone, Copy, PartialEq, Eq, Structural)]
pub enum ChessPieceType {
    King,
    Queen,
    Rook,
    Bishop,
    Knight,
    Pawn,
}

/// The kind of piece a board letter names, either case: `R` king, `D`
/// queen, `C` knight, `A` bishop, `T` rook, `P` pawn.
pub open spec fn piece_type_of(c: char) -> Option<ChessPieceType> {
    if c == 'R' || c == 'r' {
        Some(ChessPieceType::King)
    } else if c == 'D' || c == 'd' {
        Some(ChessPieceType::Queen)
    } else if c == 'C' || c == 'c' {
        Some(ChessPieceType::Knight)
    } else if c == 'A' || c == 'a' {
        Some(ChessPieceType::Bishop)
    } else if c == 'T' || c == 't' {
        Some(ChessPieceType::Rook)
    } else if c == 'P' || c == 'p' {
        Some(ChessPieceType::Pawn)
    } else {
        None
    }
}

/// The kind of piece a board letter names, or `InvalidPiece`.
pub fn get_chess_piece_type(chess_piece_char: char) -> (r: Result<ChessPieceType, ChessError>)
    ensures
        match piece_type_of(chess_piece_char) {
            Some(t) => r == Ok::<ChessPieceType, ChessError>(t),
            None => r == Err::<ChessPieceType, ChessError>(ChessError::InvalidPiece),
        },
{
    match chess_piece_char {
        'R' | 'r' => Ok(ChessPieceType::King),
        'D' | 'd' => Ok(ChessPieceType::Queen),
        'C' | 'c' => Ok(ChessPieceType::Knight),
        'A' | 'a' => Ok(ChessPieceType::Bishop),
        'T' | 't' => Ok(ChessPieceType::Rook),
        'P' | 'p' => Ok(ChessPieceType::Pawn),
        _ => Err(ChessError::InvalidPiece),
    }
}

} // verus!
