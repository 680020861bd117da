use vstd::prelude::*;

verus! {

/// Everything that can go wrong while loading a board, reading the
/// command line or detonating a bomb.
#[derive(Debug, Clone, Copy, PartialEq, Eq, Structural)]
pub enum BombermanError {
    InvalidCoordinate,
    InsufficientInput,
    InputPathError,
    InvalidItem,
    InvalidItemFormat,
    InvalidEnemyFormat,
    InvalidNormalBombFormat,
    InvalidTransferBombFormat,
    InvalidDeflectionFormat,
    InvalidBombCoordinate,
    OutputPathError,
    Write,
    NonSquareBoardError,
    InvalidEnemyLife,
    EmptyFileError,
}

/// The user-facing text of each error.
pub open spec fn message_text(e: BombermanError) -> Seq<char> {
    match e {
        BombermanError::InvalidCoordinate =>
            "Las coordenadas deben ser enteros de 0 hasta n(#filas de la cantidad de la matriz)"@,
        BombermanError::InsufficientInput => "Use: cargo new -- tablero.txt path/output.txt x y"@,
        BombermanError::InputPathError => "El archivo input no exite"@,
        BombermanError::InvalidItem => "Item no reconocido"@,
        BombermanError::InvalidItemFormat => "No se reconoce el formato del item"@,
        BombermanError::InvalidEnemyFormat =>
            "No se cumple el formato del item enemy, use: EXXX con XXX igual a un numero natural"@,
        BombermanError::InvalidNormalBombFormat =>
            "No se cumple el formato del item Bomba Normal, use: BXXX con XXX igual a un numero natural"@,
        BombermanError::InvalidTransferBombFormat =>
            "No se cumple el formato del item Bomba de Traspaso, use: SXXX con XXX igual a un numero natural"@,
        BombermanError::InvalidDeflectionFormat =>
            "No se cumple el formato del item Desvio, use: DX con X una direccion valida (L, R, U, D)"@,
        BombermanError::InvalidBombCoordinate => "En la coordenada proporcionada no se encontro una bomba"@,
        BombermanError::OutputPathError => "El archivo output no se pudo crear"@,
        BombermanError::Write => "No se pudo escribir en el archivo output"@,
        BombermanError::NonSquareBoardError => "El tablero no es cuadrado"@,
        BombermanError::InvalidEnemyLife => "La vida de un enemigo esta fuera del rango. Rango: 1 al 3"@,
        BombermanError::EmptyFileError => "El archivo de entrada esta vacio"@,
    }
}

impl BombermanError {
    /// The message reported to the user for this error.
    pub fn message(&self) -> (r: &'static str)
        ensures
            r@ == message_text(*self),
    {
        match self {
            BombermanError::InvalidCoordinate => {
                "Las coordenadas deben ser enteros de 0 hasta n(#filas de la cantidad de la matriz)"
            },
            BombermanError::InsufficientInput => "Use: cargo new -- tablero.txt path/output.txt x y",
            BombermanError::InputPathError => "El archivo input no exite",
            BombermanError::InvalidItem => "Item no reconocido",
            BombermanError::InvalidItemFormat => "No se reconoce el formato del item",
            BombermanError::InvalidEnemyFormat => {
                "No se cumple el formato del item enemy, use: EXXX con XXX igual a un numero natural"
            },
            BombermanError::InvalidNormalBombFormat => {
                "No se cumple el formato del item Bomba Normal, use: BXXX con XXX igual a un numero natural"
            },
            BombermanError::InvalidTransferBombFormat => {
                "No se cumple el formato del item Bomba de Traspaso, use: SXXX con XXX igual a un numero natural"
            },
            BombermanError::InvalidDeflectionFormat => {
                "No se cumple el formato del item Desvio, use: DX con X una direccion valida (L, R, U, D)"
            },
            BombermanError::InvalidBombCoordinate => {
                "En la coordenada proporcionada no se encontro una bomba"
            },
            BombermanError::OutputPathError => "El archivo output no se pudo crear",
            BombermanError::Write => "No se pudo escribir en el archivo output",
            BombermanError::NonSquareBoardError => "El tablero no es cuadrado",
            BombermanError::InvalidEnemyLife => {
                "La vida de un enemigo esta fuera del rango. Rango: 1 al 3"
            },
            BombermanError::EmptyFileError => "El archivo de entrada esta vacio",
        }
    }
}

} // verus!
