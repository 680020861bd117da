use vstd::prelude::*;

verus! {

/// Everything that can go wrong while reading a chess board.
#[derive(Debug, Clone, Copy, PartialEq, Eq, Structural)]
pub enum ChessError {
    ArgsError,
    FileOpenError,
    FileReadError,
    InvalidSyntax,
    InvalidPiece,
    ChessInvalidCharError,
    InvalidPieceCount,
}

pub open spec fn chess_error_text(e: ChessError) -> Seq<char> {
    match e {
        ChessError::ArgsError => "Use --> cargo run -- archivo.txt"@,
        ChessError::FileOpenError => "Archivo no encontrado"@,
        ChessError::FileReadError => "No se pudo leer el archivo"@,
        ChessError::InvalidSyntax => "Las lineas leidas no cumples con el formato pedido"@,
        ChessError::InvalidPiece => "Se encontro un tipo de pieza no valida"@,
        ChessError::ChessInvalidCharError =>
            "Se encontro algo que no es una casilla vacia o un pieza de ajedrez"@,
        ChessError::InvalidPieceCount => "Solo debe haber 1 pieza de cada color en el tablero"@,
    }
}

impl ChessError {
    /// The description shown to the user for this error.
    pub fn message(&self) -> (r: &'static str)
        ensures
            r@ == chess_error_text(*self),
    {
        match self {
            ChessError::ArgsError => "Use --> cargo run -- archivo.txt",
            ChessError::FileOpenError => "Archivo no encontrado",
            ChessError::FileReadError => "No se pudo leer el archivo",
            ChessError::InvalidSyntax => "Las lineas leidas no cumples con el formato pedido",
            ChessError::InvalidPiece => "Se encontro un tipo de pieza no valida",
            ChessError::ChessInvalidCharError => {
                "Se encontro algo que no es una casilla vacia o un pieza de ajedrez"
            },
            ChessError::InvalidPieceCount => "Solo debe haber 1 pieza de cada color en el tablero",
        }
    }
}

} // verus!
