use bomberman::chess_error::ChessError;
use bomberman::chess_syntax_validator::{
    count_matching_values_in_matrix, count_pieces, validate_argument_count,
    validate_board_pieces, validate_number_of_pieces, validate_one_black_one_white,
    validate_row_length, validate_square,
};

#[test]
fn test_validate_argument_count_ok() {
    let args = vec!["value_1".to_string(), "value_2".to_string()];
    let result = validate_argument_count(&args);
    assert!(match result {
        Ok(()) => true,
        _ => false,
    });
}

#[test]
fn test_validate_argument_count_error() {
    let args = vec![
        "value_1".to_string(),
        "value_2".to_string(),
        "value_3".to_string(),
    ];
    let result = validate_argument_count(&args);
    assert!(result.is_err());
}

#[test]
fn test_validate_row_length_ok() {
    let valid_row_format = "_ _ _ _ _ _ _ _".to_string();
    let result = validate_row_length(&valid_row_format);
    assert!(match result {
        Ok(()) => true,
        _ => false,
    });
}

#[test]
fn test_validate_row_length_error() {
    let invalid_row_format = "_ _ _ _".to_string();
    let result = validate_row_length(&invalid_row_format);
    assert!(result.is_err());
}

#[test]
fn test_validate_square_ok() {
    let valid_piece = 'P';
    let result = validate_square(&valid_piece);
    assert!(match result {
        Ok(()) => true,
        _ => false,
    });
}

#[test]
fn test_validate_square_error() {
    let invalid_piece = '*';
    let result = validate_square(&invalid_piece);
    assert!(result.is_err());
}

fn matrix_with(pieces: &[(usize, char)]) -> [char; 64] {
    let mut m = ['_'; 64];
    for (i, c) in pieces {
        m[*i] = *c;
    }
    m
}

#[test]
fn board_squares_must_be_pieces_or_empty() {
    assert_eq!(validate_board_pieces(&matrix_with(&[(3, 'R'), (9, 'p')])), Ok(()));
    assert_eq!(
        validate_board_pieces(&matrix_with(&[(3, 'R'), (63, 'x')])),
        Err(ChessError::ChessInvalidCharError)
    );
}

#[test]
fn counts_stop_at_two() {
    let black = ['R', 'D', 'A', 'C', 'T', 'P'];
    assert_eq!(count_matching_values_in_matrix(&matrix_with(&[]), &black), 0);
    assert_eq!(count_matching_values_in_matrix(&matrix_with(&[(5, 'T')]), &black), 1);
    let m = matrix_with(&[(1, 'T'), (2, 'A'), (3, 'P'), (4, 'r')]);
    assert_eq!(count_matching_values_in_matrix(&m, &black), 2);
    assert_eq!(count_pieces(&m), 4);
}

#[test]
fn one_piece_of_each_side() {
    assert_eq!(validate_one_black_one_white(&matrix_with(&[(0, 'R'), (63, 'r')])), Ok(()));
    assert_eq!(
        validate_one_black_one_white(&matrix_with(&[(0, 'R'), (1, 'D')])),
        Err(ChessError::InvalidPieceCount)
    );
    assert_eq!(
        validate_one_black_one_white(&matrix_with(&[(0, 'R'), (1, 'd'), (2, 'p')])),
        Err(ChessError::InvalidPieceCount)
    );
    assert_eq!(validate_number_of_pieces(&matrix_with(&[(0, 'R'), (1, 'D')])), Ok(()));
    assert_eq!(
        validate_number_of_pieces(&matrix_with(&[(0, 'R')])),
        Err(ChessError::InvalidPieceCount)
    );
}
