use vstd::prelude::*;

use crate::chess_error::ChessError;
use crate::chess_piece::{piece_color_of, ChessPieceColor};

verus! {

/// Bytes in a row of the board file: eight squares with a space between each two.
pub const ROW_LENGTH: usize = 15;

/// The letter of an empty square.
pub const EMPTY_CELL: char = '_';

/// How many characters of `s` satisfy `p`.
pub open spec fn count_where(s: Seq<char>, p: spec_fn(char) -> bool) -> nat
    decreases s.len(),
{
    if s.len() == 0 {
        0
    } else {
        count_where(s.drop_last(), p) + if p(s.last()) {
            1nat
        } else {
            0nat
        }
    }
}

pub open spec fn is_piece_char(c: char) -> bool {
    piece_color_of(c) is Some
}

pub open spec fn is_black_char(c: char) -> bool {
    piece_color_of(c) == Some(ChessPieceColor::Black)
}

pub open spec fn is_white_char(c: char) -> bool {
    piece_color_of(c) == Some(ChessPieceColor::White)
}

/// A square holds a piece letter or the empty-square letter.
pub open spec fn valid_square(c: char) -> bool {
    c == EMPTY_CELL || is_piece_char(c)
}

pub proof fn lemma_count_where_push(s: Seq<char>, c: char, p: spec_fn(char) -> bool)
    ensures
        count_where(s.push(c), p) == count_where(s, p) + if p(c) {
            1nat
        } else {
            0nat
        },
{
    assert(s.push(c).drop_last() =~= s);
}

pub proof fn lemma_count_where_prefix(s: Seq<char>, k: int, p: spec_fn(char) -> bool)
    requires
        0 <= k <= s.len(),
    ensures
        count_where(s.take(k), p) <= count_where(s, p),
        count_where(s, p) <= count_where(s.take(k), p) + (s.len() - k),
    decreases s.len() - k,
{
    if k < s.len() {
        lemma_count_where_prefix(s, k + 1, p);
        assert(s.take(k + 1) =~= s.take(k).push(s[k]));
        lemma_count_where_push(s.take(k), s[k], p);
    } else {
        assert(s.take(k) =~= s);
    }
}

/// A program run takes exactly one argument besides its name.
pub fn validate_argument_count(args: &Vec<String>) -> (r: Result<(), ChessError>)
    ensures
        r is Ok <==> args@.len() == 2,
        r is Err ==> r == Err::<(), ChessError>(ChessError::ArgsError),
{
    if args.len() != 2 {
        return Err(ChessError::ArgsError);
    }
    Ok(())
}

/// A row of the board file is fifteen bytes long.
pub fn validate_row_length(row: &String) -> (r: Result<(), ChessError>)
    ensures
        r is Ok <==> vstd::utf8::encode_utf8(row@).len() as usize == ROW_LENGTH,
        r is Err ==> r == Err::<(), ChessError>(ChessError::InvalidSyntax),
{
    if row.as_str().len() != ROW_LENGTH {
        return Err(ChessError::InvalidSyntax);
    }
    Ok(())
}

/// A square holds a piece or is empty; anything else is `ChessInvalidCharError`.
pub fn validate_square(square: &char) -> (r: Result<(), ChessError>)
    ensures
        r is Ok <==> valid_square(*square),
        r is Err ==> r == Err::<(), ChessError>(ChessError::ChessInvalidCharError),
{
    match *square {
        '_' | 'R' | 'D' | 'A' | 'C' | 'T' | 'P' | 'r' | 'd' | 'a' | 'c' | 't' | 'p' => Ok(()),
        _ => Err(ChessError::ChessInvalidCharError),
    }
}

/// Every square of the board holds a piece or is empty.
pub fn validate_board_pieces(matrix: &[char; 64]) -> (r: Result<(), ChessError>)
    ensures
        r is Ok <==> forall|i: int| 0 <= i < 64 ==> valid_square(#[trigger] matrix@[i]),
        r is Err ==> r == Err::<(), ChessError>(ChessError::ChessInvalidCharError),
{
    let mut i: usize = 0;
    while i < 64
        invariant
            i <= 64,
            forall|j: int| 0 <= j < i ==> valid_square(#[trigger] matrix@[j]),
        decreases 64 - i,
    {
        match validate_square(&matrix[i]) {
            Ok(()) => {},
            Err(e) => return Err(e),
        }
        i = i + 1;
    }
    Ok(())
}

/// How many squares hold one of `values`, counted up to two.
pub fn count_matching_values_in_matrix(matrix: &[char; 64], values: &[char; 6]) -> (r: i32)
    ensures
        r == if count_where(matrix@, |c: char| values@.contains(c)) < 2 {
            count_where(matrix@, |c: char| values@.contains(c)) as int
        } else {
            2
        },
{
    let ghost p = |c: char| values@.contains(c);
    let mut count: i32 = 0;
    let mut i: usize = 0;
    while i < 64
        invariant
            i <= 64,
            matrix@.len() == 64,
            p == |c: char| values@.contains(c),
            count == count_where(matrix@.take(i as int), p),
            count <= 1,
        decreases 64 - i,
    {
        let c = matrix[i];
        let mut found = false;
        let mut k: usize = 0;
        while k < 6
            invariant
                k <= 6,
                values@.len() == 6,
                found == (exists|j: int| 0 <= j < k && values@[j] == c),
            decreases 6 - k,
        {
            if values[k] == c {
                found = true;
            }
            k = k + 1;
        }
        proof {
            assert(matrix@.take(i + 1) =~= matrix@.take(i as int).push(c));
            lemma_count_where_push(matrix@.take(i as int), c, p);
            if found {
                let j = choose|j: int| 0 <= j < 6 && values@[j] == c;
                assert(values@.contains(c));
            } else {
                assert(!values@.contains(c));
            }
        }
        if found {
            count = count + 1;
        }
        i = i + 1;
        if count > 1 {
            proof {
                lemma_count_where_prefix(matrix@, i as int, p);
            }
            return count;
        }
    }
    assert(matrix@.take(64) =~= matrix@);
    count
}

/// The board holds exactly one black piece and exactly one white piece;
/// otherwise `InvalidPieceCount`.
pub fn validate_one_black_one_white(matrix: &[char; 64]) -> (r: Result<(), ChessError>)
    ensures
        r is Ok <==> count_where(matrix@, |c: char| is_black_char(c)) == 1 && count_where(
            matrix@,
            |c: char| is_white_char(c),
        ) == 1,
        r is Err ==> r == Err::<(), ChessError>(ChessError::InvalidPieceCount),
{
    let black: [char; 6] = ['R', 'D', 'A', 'C', 'T', 'P'];
    let white: [char; 6] = ['r', 'd', 'a', 'c', 't', 'p'];
    proof {
        assert(black@ =~= seq!['R', 'D', 'A', 'C', 'T', 'P']);
        assert(white@ =~= seq!['r', 'd', 'a', 'c', 't', 'p']);
        assert((|c: char| black@.contains(c)) =~= (|c: char| is_black_char(c))) by {
            assert forall|c: char| black@.contains(c) == is_black_char(c) by {
                if is_black_char(c) {
                    if c == 'R' {
                        assert(black@[0] == c);
                    } else if c == 'D' {
                        assert(black@[1] == c);
                    } else if c == 'A' {
                        assert(black@[2] == c);
                    } else if c == 'C' {
                        assert(black@[3] == c);
                    } else if c == 'T' {
                        assert(black@[4] == c);
                    } else {
                        assert(black@[5] == c);
                    }
                }
            }
        }
        assert((|c: char| white@.contains(c)) =~= (|c: char| is_white_char(c))) by {
            assert forall|c: char| white@.contains(c) == is_white_char(c) by {
                if is_white_char(c) {
                    if c == 'r' {
                        assert(white@[0] == c);
                    } else if c == 'd' {
                        assert(white@[1] == c);
                    } else if c == 'a' {
                        assert(white@[2] == c);
                    } else if c == 'c' {
                        assert(white@[3] == c);
                    } else if c == 't' {
                        assert(white@[4] == c);
                    } else {
                        assert(white@[5] == c);
                    }
                }
            }
        }
    }
    let black_pieces_count = count_matching_values_in_matrix(matrix, &black);
    if black_pieces_count != 1 {
        return Err(ChessError::InvalidPieceCount);
    }
    let white_pieces_count = count_matching_values_in_matrix(matrix, &white);
    if white_pieces_count != 1 {
        return Err(ChessError::InvalidPieceCount);
    }
    Ok(())
}

/// How many squares hold a piece of either side.
pub fn count_pieces(matrix: &[char; 64]) -> (r: u32)
    ensures
        r == count_where(matrix@, |c: char| is_piece_char(c)),
{
    let ghost p = |c: char| is_piece_char(c);
    let mut count: u32 = 0;
    let mut i: usize = 0;
    while i < 64
        invariant
            i <= 64,
            matrix@.len() == 64,
            p == |c: char| is_piece_char(c),
            count == count_where(matrix@.take(i as int), p),
            count <= i,
        decreases 64 - i,
    {
        let c = matrix[i];
        proof {
            assert(matrix@.take(i + 1) =~= matrix@.take(i as int).push(c));
            lemma_count_where_push(matrix@.take(i as int), c, p);
        }
        match c {
            'R' | 'D' | 'A' | 'C' | 'T' | 'P' | 'r' | 'd' | 'a' | 'c' | 't' | 'p' => {
                count = count + 1;
            },
            _ => {},
        }
        i = i + 1;
    }
    assert(matrix@.take(64) =~= matrix@);
    count
}

/// The board holds exactly two pieces; otherwise `InvalidPieceCount`.
pub fn validate_number_of_pieces(matrix: &[char; 64]) -> (r: Result<(), ChessError>)
    ensures
        r is Ok <==> count_where(matrix@, |c: char| is_piece_char(c)) == 2,
        r is Err ==> r == Err::<(), ChessError>(ChessError::InvalidPieceCount),
{
    if count_pieces(matrix) != 2 {
        return Err(ChessError::InvalidPieceCount);
    }
    Ok(())
}

} // verus!
