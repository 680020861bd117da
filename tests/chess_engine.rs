use bomberman::chess_engine::{complete_row, game, process_row, recreate_future_moves};
use bomberman::chess_error::ChessError;
use bomberman::chess_piece::ChessPiece;
use bomberman::chess_piece_type::{get_chess_piece_type, ChessPieceType};
use bomberman::chess_position::ChessPosition;

fn board(rows: [&str; 8]) -> Vec<String> {
    rows.iter().map(|s| s.to_string()).collect()
}

#[test]
fn white_king_next_to_black_rook_wins() {
    let lines = board([
        "_ _ _ _ _ _ _ _",
        "_ _ _ _ _ _ _ _",
        "_ _ _ T _ _ _ _",
        "_ _ _ _ r _ _ _",
        "_ _ _ _ _ _ _ _",
        "_ _ _ _ _ _ _ _",
        "_ _ _ _ _ _ _ _",
        "_ _ _ _ _ _ _ _",
    ]);
    // The king touches the rook diagonally; the rook does not share its line.
    assert_eq!(game(&lines), Ok('B'));
}

#[test]
fn black_knight_wins() {
    let lines = board([
        "_ _ _ _ _ _ _ _",
        "_ _ C _ _ _ _ _",
        "_ _ _ _ _ _ _ _",
        "_ _ _ a _ _ _ _",
        "_ _ _ _ _ _ _ _",
        "_ _ _ _ _ _ _ _",
        "_ _ _ _ _ _ _ _",
        "_ _ _ _ _ _ _ _",
    ]);
    assert_eq!(game(&lines), Ok('N'));
}

#[test]
fn queens_on_one_line_draw() {
    let lines = board([
        "D _ _ _ _ _ _ d",
        "_ _ _ _ _ _ _ _",
        "_ _ _ _ _ _ _ _",
        "_ _ _ _ _ _ _ _",
        "_ _ _ _ _ _ _ _",
        "_ _ _ _ _ _ _ _",
        "_ _ _ _ _ _ _ _",
        "_ _ _ _ _ _ _ _",
    ]);
    assert_eq!(game(&lines), Ok('E'));
}

#[test]
fn pawns_far_apart_nobody_wins() {
    let lines = board([
        "P _ _ _ _ _ _ _",
        "_ _ _ _ _ _ _ _",
        "_ _ _ _ _ _ _ _",
        "_ _ _ _ _ _ _ _",
        "_ _ _ _ _ _ _ _",
        "_ _ _ _ _ _ _ _",
        "_ _ _ _ _ _ _ _",
        "_ _ _ _ _ p _ _",
    ]);
    assert_eq!(game(&lines), Ok('P'));
}

#[test]
fn bad_boards_are_reported() {
    let mut lines = board([
        "P _ _ _ _ _ _ _",
        "_ _ _ _ _ _ _ _",
        "_ _ _ _ _ _ _ _",
        "_ _ _ _ _ _ _ _",
        "_ _ _ _ _ _ _ _",
        "_ _ _ _ _ _ _ _",
        "_ _ _ _ _ _ _ _",
        "_ _ _ _ _ p _ _",
    ]);
    lines[3] = "_ _ _".to_string();
    assert_eq!(game(&lines), Err(ChessError::InvalidSyntax));
    lines[3] = "_ _ _ x _ _ _ _".to_string();
    assert_eq!(game(&lines), Err(ChessError::ChessInvalidCharError));
    lines[3] = "_ _ _ p _ _ _ _".to_string();
    assert_eq!(game(&lines), Err(ChessError::InvalidPieceCount));
    // Squares that no line filled are not valid squares.
    lines.truncate(7);
    assert_eq!(game(&lines), Err(ChessError::ChessInvalidCharError));
}

#[test]
fn rows_fill_the_matrix() {
    let mut m = ['-'; 64];
    complete_row("a b c d e f g h", 1, &mut m);
    assert_eq!(&m[8..16], &['a', 'b', 'c', 'd', 'e', 'f', 'g', 'h']);
    assert_eq!(m[7], '-');
    assert_eq!(m[16], '-');
    assert_eq!(process_row(&"_ _ _ _".to_string(), 0, &mut m), Err(ChessError::InvalidSyntax));
    assert_eq!(process_row(&"_  _ _ _ _ _ _".to_string(), 0, &mut m), Err(ChessError::InvalidSyntax));
    assert_eq!(process_row(&"_ _ _ _ _ _ _ _".to_string(), 8, &mut m), Err(ChessError::InvalidSyntax));
    assert_eq!(m[0], '-');
    assert_eq!(process_row(&"T _ _ _ _ _ _ _".to_string(), 0, &mut m), Ok(()));
    assert_eq!(m[0], 'T');
}

#[test]
fn outcome_of_a_matrix() {
    let mut m = ['_'; 64];
    m[0] = 'A';
    m[63] = 'p';
    assert_eq!(recreate_future_moves(&m), Ok('N'));
    m[0] = 'T';
    assert_eq!(recreate_future_moves(&m), Ok('P'));
}

#[test]
fn positions() {
    let a = ChessPosition::create_position(4, 4);
    assert!(a.is_adjacent(&ChessPosition::create_position(5, 5)));
    assert!(!a.is_adjacent(&ChessPosition::create_position(4, 4)));
    assert!(!a.is_adjacent(&ChessPosition::create_position(6, 4)));
    assert!(a.are_in_same_row_or_column(&ChessPosition::create_position(4, 8)));
    assert!(a.are_in_diagonal(&ChessPosition::create_position(1, 7)));
    assert!(a.are_aligned(&ChessPosition::create_position(8, 8)));
    assert!(!a.are_aligned(&ChessPosition::create_position(6, 5)));
    assert!(a.are_in_l(&ChessPosition::create_position(6, 5)));
    assert!(a.are_in_l(&ChessPosition::create_position(3, 2)));
    assert!(!a.are_in_l(&ChessPosition::create_position(6, 6)));
    assert!(a.are_diagonal_1(&ChessPosition::create_position(3, 5)));
    assert!(a.one_position_down_diagonal(&ChessPosition::create_position(5, 3)));
    assert!(!a.one_position_down_diagonal(&ChessPosition::create_position(3, 3)));
    assert!(a.one_position_upward_diagonal(&ChessPosition::create_position(3, 5)));
    assert!(!a.one_position_upward_diagonal(&ChessPosition::create_position(5, 5)));
}

#[test]
fn pieces() {
    assert_eq!(get_chess_piece_type('c'), Ok(ChessPieceType::Knight));
    assert_eq!(get_chess_piece_type('x'), Err(ChessError::InvalidPiece));
    let king = ChessPiece::chess_piece_from('r', 2, 2).unwrap();
    let rook = ChessPiece::chess_piece_from('T', 2, 8).unwrap();
    assert!(king.is_white_piece());
    assert!(!king.is_black_piece());
    assert!(rook.is_black_piece());
    assert!(rook.can_capture(&king));
    assert!(!king.can_capture(&rook));
    assert_eq!(ChessPiece::chess_piece_from('Z', 1, 1).unwrap_err(), ChessError::InvalidPiece);
}
