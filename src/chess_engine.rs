use vstd::prelude::*;

use crate::chess_error::ChessError;
use crate::chess_piece::{attacks, piece_color_of, ChessPiece, ChessPieceColor};
use crate::chess_piece_type::piece_type_of;
use crate::chess_syntax_validator::{
    count_where, is_black_char, is_white_char, valid_square, validate_board_pieces,
    validate_one_black_one_white, validate_row_length, ROW_LENGTH,
};
use crate::text::{chars_of, field_bounds, fields, line_texts};

verus! {

/// Squares in a row of the board.
pub const NUMBER_OF_COLUMNS: usize = 8;

/// A row of text fits row `i_row` of the board: each of its fields is
/// non-empty, and there are no more fields than squares left in the board.
pub open spec fn row_fits(s: Seq<char>, i_row: nat) -> bool {
    &&& forall|k: int| 0 <= k < fields(s).len() ==> (#[trigger] fields(s)[k]).len() > 0
    &&& i_row * 8 + fields(s).len() <= 64
}

/// The board after row `i_row` was filled from `s`: square `i_row * 8 + k`
/// takes the first letter of the `k`-th field.
pub open spec fn fill_row(m: Seq<char>, s: Seq<char>, i_row: nat) -> Seq<char> {
    Seq::new(
        64,
        |k: int|
            if i_row * 8 <= k < i_row * 8 + fields(s).len() {
                fields(s)[k - i_row * 8][0]
            } else {
                m[k]
            },
    )
}

/// Writes the first letter of each field of `row` into row `i_row` of the board.
pub fn complete_row(row: &str, i_row: usize, matrix: &mut [char; 64])
    requires
        row_fits(row@, i_row as nat),
    ensures
        final(matrix)@ == fill_row(old(matrix)@, row@, i_row as nat),
{
    let chars = chars_of(row);
    let bounds = field_bounds(&chars);
    let ghost f = fields(row@);
    let base: usize = i_row * NUMBER_OF_COLUMNS;
    let mut k: usize = 0;
    while k < bounds.len()
        invariant
            chars@ == row@,
            f == fields(row@),
            row_fits(row@, i_row as nat),
            base == i_row * 8,
            bounds@.len() == f.len(),
            forall|j: int|
                0 <= j < bounds@.len() ==> {
                    &&& (#[trigger] bounds@[j]).0 <= bounds@[j].1 <= chars@.len()
                    &&& chars@.subrange(bounds@[j].0 as int, bounds@[j].1 as int) == f[j]
                },
            k <= bounds@.len(),
            forall|i: int|
                0 <= i < 64 ==> #[trigger] matrix@[i] == if base <= i < base + k {
                    f[i - base][0]
                } else {
                    old(matrix)@[i]
                },
        decreases bounds@.len() - k,
    {
        let (lo, hi) = bounds[k];
        assert(f[k as int].len() > 0);
        assert(chars@.subrange(lo as int, hi as int)[0] == chars@[lo as int]);
        matrix.set(base + k, chars[lo]);
        k = k + 1;
    }
    assert(matrix@ =~= fill_row(old(matrix)@, row@, i_row as nat));
}

/// Whether `row` can fill row `i_row`: see `row_fits`.
fn row_fits_board(row: &str, i_row: usize) -> (r: bool)
    ensures
        r == row_fits(row@, i_row as nat),
{
    let chars = chars_of(row);
    let bounds = field_bounds(&chars);
    if i_row >= NUMBER_OF_COLUMNS || bounds.len() > 64 - i_row * NUMBER_OF_COLUMNS {
        return false;
    }
    let mut k: usize = 0;
    while k < bounds.len()
        invariant
            chars@ == row@,
            bounds@.len() == fields(row@).len(),
            forall|j: int|
                0 <= j < bounds@.len() ==> {
                    &&& (#[trigger] bounds@[j]).0 <= bounds@[j].1 <= chars@.len()
                    &&& chars@.subrange(bounds@[j].0 as int, bounds@[j].1 as int) == fields(
                        row@,
                    )[j]
                },
            k <= bounds@.len(),
            forall|j: int| 0 <= j < k ==> (#[trigger] fields(row@)[j]).len() > 0,
        decreases bounds@.len() - k,
    {
        let (lo, hi) = bounds[k];
        if lo == hi {
            assert(fields(row@)[k as int].len() == 0);
            return false;
        }
        k = k + 1;
    }
    true
}

/// A board row is accepted when it is fifteen bytes long and fits its row.
pub open spec fn row_ok(s: Seq<char>, i_row: nat) -> bool {
    vstd::utf8::encode_utf8(s).len() as usize == ROW_LENGTH && row_fits(s, i_row)
}

/// Reads one line of the board file into row `i_row`. Fails with
/// `InvalidSyntax`, leaving the board as it was, when the line is not
/// fifteen bytes long or does not fit that row.
pub fn process_row(row: &String, i_row: usize, matrix: &mut [char; 64]) -> (r: Result<
    (),
    ChessError,
>)
    ensures
        r is Ok <==> row_ok(row@, i_row as nat),
        r is Ok ==> final(matrix)@ == fill_row(old(matrix)@, row@, i_row as nat),
        r is Err ==> r == Err::<(), ChessError>(ChessError::InvalidSyntax) && final(matrix)@ == old(
            matrix,
        )@,
{
    match validate_row_length(row) {
        Ok(()) => {},
        Err(e) => return Err(e),
    }
    if !row_fits_board(row.as_str(), i_row) {
        return Err(ChessError::InvalidSyntax);
    }
    complete_row(row.as_str(), i_row, matrix);
    Ok(())
}

/// Row and column, counted from 1, of square `i` of the board.
pub open spec fn square_row(i: int) -> nat {
    (i / 8 + 1) as nat
}

pub open spec fn square_column(i: int) -> nat {
    (i % 8 + 1) as nat
}

/// Whether the piece with letter `c` on square `i` attacks square `j`.
pub open spec fn attacks_from(c: char, i: int, j: int) -> bool {
    match piece_type_of(c) {
        Some(t) => attacks(t, square_row(i), square_column(i), square_row(j), square_column(j)),
        None => false,
    }
}

/// What comes of the next move when two pieces face each other: `E` when
/// each can take the other, `P` when neither can, `B` when only white can,
/// `N` when only black can.
pub open spec fn duel(black_takes: bool, white_takes: bool) -> char {
    if black_takes && white_takes {
        'E'
    } else if !black_takes && !white_takes {
        'P'
    } else if white_takes {
        'B'
    } else {
        'N'
    }
}

/// The outcome for a board: an error when a square holds anything but a
/// piece or `_`, or when there is not exactly one piece of each side; else
/// the outcome of the black and the white piece facing each other.
pub open spec fn board_outcome(m: Seq<char>) -> Result<char, ChessError> {
    if !(forall|i: int| 0 <= i < 64 ==> valid_square(#[trigger] m[i])) {
        Err(ChessError::ChessInvalidCharError)
    } else if !(count_where(m, |c: char| is_black_char(c)) == 1 && count_where(
        m,
        |c: char| is_white_char(c),
    ) == 1) {
        Err(ChessError::InvalidPieceCount)
    } else {
        let b = choose|i: int| 0 <= i < 64 && is_black_char(m[i]);
        let w = choose|i: int| 0 <= i < 64 && is_white_char(m[i]);
        Ok(duel(attacks_from(m[b], b, w), attacks_from(m[w], w, b)))
    }
}

pub proof fn lemma_count_where_positive(s: Seq<char>, p: spec_fn(char) -> bool, i: int)
    requires
        0 <= i < s.len(),
        p(s[i]),
    ensures
        count_where(s, p) >= 1,
    decreases s.len(),
{
    if i < s.len() - 1 {
        lemma_count_where_positive(s.drop_last(), p, i);
    }
}

/// A count of one leaves room for a single matching position.
pub proof fn lemma_count_where_unique(s: Seq<char>, p: spec_fn(char) -> bool, i: int, j: int)
    requires
        count_where(s, p) == 1,
        0 <= i < s.len(),
        0 <= j < s.len(),
        p(s[i]),
        p(s[j]),
    ensures
        i == j,
    decreases s.len(),
{
    let last = s.len() - 1;
    if i == last && j != last {
        lemma_count_where_positive(s.drop_last(), p, j);
    } else if j == last && i != last {
        lemma_count_where_positive(s.drop_last(), p, i);
    } else if i != last && j != last {
        if p(s.last()) {
            lemma_count_where_positive(s.drop_last(), p, i);
        } else {
            lemma_count_where_unique(s.drop_last(), p, i, j);
        }
    }
}

pub proof fn lemma_count_where_none(s: Seq<char>, p: spec_fn(char) -> bool)
    requires
        forall|i: int| 0 <= i < s.len() ==> !p(#[trigger] s[i]),
    ensures
        count_where(s, p) == 0,
    decreases s.len(),
{
    if s.len() > 0 {
        lemma_count_where_none(s.drop_last(), p);
    }
}

/// The first square that holds a piece of the given side, if any.
fn find_chess_pieces(matrix: &[char; 64], white: bool) -> (r: Option<usize>)
    ensures
        match r {
            Some(i) => i < 64 && if white {
                is_white_char(matrix@[i as int])
            } else {
                is_black_char(matrix@[i as int])
            },
            None => forall|i: int|
                0 <= i < 64 ==> !(if white {
                    is_white_char(#[trigger] matrix@[i])
                } else {
                    is_black_char(matrix@[i])
                }),
        },
{
    let mut i: usize = 0;
    while i < 64
        invariant
            i <= 64,
            forall|j: int|
                0 <= j < i ==> !(if white {
                    is_white_char(#[trigger] matrix@[j])
                } else {
                    is_black_char(matrix@[j])
                }),
        decreases 64 - i,
    {
        let c = matrix[i];
        let matches = if white {
            c == 'r' || c == 'd' || c == 'c' || c == 'a' || c == 't' || c == 'p'
        } else {
            c == 'R' || c == 'D' || c == 'C' || c == 'A' || c == 'T' || c == 'P'
        };
        if matches {
            return Some(i);
        }
        i = i + 1;
    }
    None
}

/// The piece that a board letter names, standing on square `i`.
pub open spec fn piece_on(p: ChessPiece, c: char, i: int) -> bool {
    &&& piece_type_of(c) == Some(p.kind_spec())
    &&& piece_color_of(c) == Some(p.color_spec())
    &&& p.position_spec().row_spec() == square_row(i)
    &&& p.position_spec().column_spec() == square_column(i)
}

/// The black and the white piece of a board that holds one of each.
fn get_chess_pieces(matrix: &[char; 64]) -> (r: Result<(ChessPiece, ChessPiece), ChessError>)
    requires
        count_where(matrix@, |c: char| is_black_char(c)) == 1,
        count_where(matrix@, |c: char| is_white_char(c)) == 1,
    ensures
        r matches Ok((b, w)) && (forall|i: int|
            0 <= i < 64 && is_black_char(#[trigger] matrix@[i]) ==> piece_on(b, matrix@[i], i))
            && (forall|i: int|
            0 <= i < 64 && is_white_char(#[trigger] matrix@[i]) ==> piece_on(w, matrix@[i], i)),
{
    let bi = match find_chess_pieces(matrix, false) {
        Some(i) => i,
        None => {
            proof {
                lemma_count_where_none(matrix@, |c: char| is_black_char(c));
            }
            return Err(ChessError::InvalidPieceCount);
        },
    };
    let wi = match find_chess_pieces(matrix, true) {
        Some(i) => i,
        None => {
            proof {
                lemma_count_where_none(matrix@, |c: char| is_white_char(c));
            }
            return Err(ChessError::InvalidPieceCount);
        },
    };
    let b = match ChessPiece::chess_piece_from(
        matrix[bi],
        bi / NUMBER_OF_COLUMNS + 1,
        bi % NUMBER_OF_COLUMNS + 1,
    ) {
        Ok(p) => p,
        Err(e) => return Err(e),
    };
    let w = match ChessPiece::chess_piece_from(
        matrix[wi],
        wi / NUMBER_OF_COLUMNS + 1,
        wi % NUMBER_OF_COLUMNS + 1,
    ) {
        Ok(p) => p,
        Err(e) => return Err(e),
    };
    proof {
        assert forall|i: int| 0 <= i < 64 && is_black_char(#[trigger] matrix@[i]) implies piece_on(
            b,
            matrix@[i],
            i,
        ) by {
            lemma_count_where_unique(matrix@, |c: char| is_black_char(c), i, bi as int);
        }
        assert forall|i: int| 0 <= i < 64 && is_white_char(#[trigger] matrix@[i]) implies piece_on(
            w,
            matrix@[i],
            i,
        ) by {
            lemma_count_where_unique(matrix@, |c: char| is_white_char(c), i, wi as int);
        }
    }
    Ok((b, w))
}

/// What comes of the next move between two pieces: `E` when each can take
/// the other, `P` when neither can, `B` when a white piece can take the
/// other, else `N`.
fn simulate_next_move(piece_1: &ChessPiece, piece_2: &ChessPiece) -> (r: char)
    ensures
        r == ({
            let c1 = piece_1.captures_spec(piece_2);
            let c2 = piece_2.captures_spec(piece_1);
            if c1 && c2 {
                'E'
            } else if !c1 && !c2 {
                'P'
            } else if (c1 && piece_1.color_spec() == ChessPieceColor::White) || (c2
                && piece_2.color_spec() == ChessPieceColor::White) {
                'B'
            } else {
                'N'
            }
        }),
{
    let piece_1_can_capture = piece_1.can_capture(piece_2);
    let piece_2_can_capture = piece_2.can_capture(piece_1);
    if piece_1_can_capture && piece_2_can_capture {
        'E'
    } else if !piece_1_can_capture && !piece_2_can_capture {
        'P'
    } else if (piece_1_can_capture && piece_1.is_white_piece()) || (piece_2_can_capture
        && piece_2.is_white_piece()) {
        'B'
    } else {
        'N'
    }
}

/// Checks the board and tells what comes of the next move: see
/// `board_outcome`.
pub fn recreate_future_moves(matrix: &[char; 64]) -> (r: Result<char, ChessError>)
    ensures
        r == board_outcome(matrix@),
{
    match validate_board_pieces(matrix) {
        Ok(()) => {},
        Err(e) => return Err(e),
    }
    match validate_one_black_one_white(matrix) {
        Ok(()) => {},
        Err(e) => return Err(e),
    }
    let (black, white) = match get_chess_pieces(matrix) {
        Ok(pieces) => pieces,
        Err(e) => return Err(e),
    };
    let r = simulate_next_move(&black, &white);
    proof {
        let m = matrix@;
        let b = choose|i: int| 0 <= i < 64 && is_black_char(m[i]);
        let w = choose|i: int| 0 <= i < 64 && is_white_char(m[i]);
        let bi = choose|i: int| 0 <= i < 64 && is_black_char(m[i]);
        assert(exists|i: int| 0 <= i < 64 && is_black_char(m[i])) by {
            if !(exists|i: int| 0 <= i < 64 && is_black_char(m[i])) {
                lemma_count_where_none(m, |c: char| is_black_char(c));
            }
        }
        assert(exists|i: int| 0 <= i < 64 && is_white_char(m[i])) by {
            if !(exists|i: int| 0 <= i < 64 && is_white_char(m[i])) {
                lemma_count_where_none(m, |c: char| is_white_char(c));
            }
        }
        assert(piece_on(black, m[b], b));
        assert(piece_on(white, m[w], w));
    }
    Ok(r)
}

/// The board after the first `k` lines of the file were read into it, or
/// the error of the first line that does not fit. Squares that no line
/// filled hold `-`.
pub open spec fn load_rows(lines: Seq<Seq<char>>, k: nat) -> Result<Seq<char>, ChessError>
    decreases k,
{
    if k == 0 {
        Ok(Seq::new(64, |i: int| '-'))
    } else {
        match load_rows(lines, (k - 1) as nat) {
            Err(e) => Err(e),
            Ok(m) => if row_ok(lines[k - 1], (k - 1) as nat) {
                Ok(fill_row(m, lines[k - 1], (k - 1) as nat))
            } else {
                Err(ChessError::InvalidSyntax)
            },
        }
    }
}

/// Reads a board from the lines of its file and tells what comes of the
/// next move: `B`, `N`, `E` or `P` (see `board_outcome`), or the first
/// error found.
pub fn game(lines: &Vec<String>) -> (r: Result<char, ChessError>)
    ensures
        match load_rows(line_texts(lines@), lines@.len()) {
            Err(e) => r == Err::<char, ChessError>(e),
            Ok(m) => r == board_outcome(m),
        },
{
    let ghost texts = line_texts(lines@);
    let mut matrix: [char; 64] = ['-'; 64];
    assert(matrix@ =~= Seq::new(64, |i: int| '-'));
    let mut i: usize = 0;
    while i < lines.len()
        invariant
            texts == line_texts(lines@),
            i <= lines@.len(),
            load_rows(texts, i as nat) == Ok::<Seq<char>, ChessError>(matrix@),
        decreases lines@.len() - i,
    {
        assert(texts[i as int] == lines@[i as int]@);
        match process_row(&lines[i], i, &mut matrix) {
            Ok(()) => {},
            Err(e) => {
                proof {
                    lemma_load_rows_error(texts, (i + 1) as nat, lines@.len());
                }
                return Err(e);
            },
        }
        i = i + 1;
    }
    recreate_future_moves(&matrix)
}

/// Once a line fails, every longer read fails with its error.
pub proof fn lemma_load_rows_error(lines: Seq<Seq<char>>, k: nat, n: nat)
    requires
        k <= n,
        load_rows(lines, k) is Err,
    ensures
        load_rows(lines, n) == load_rows(lines, k),
    decreases n - k,
{
    if k < n {
        lemma_load_rows_error(lines, k, (n - 1) as nat);
    }
}

} // verus!
