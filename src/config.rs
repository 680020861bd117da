use vstd::prelude::*;

use crate::error::BombermanError;
use crate::item::parse_decimal;
use crate::text::{chars_of, decimal_value};

verus! {

/// Position of the input board path among the program arguments.
pub const INPUT_IDX: usize = 1;

/// Position of the output directory among the program arguments.
pub const OUTPUT_IDX: usize = 2;

/// Position of the bomb's row among the program arguments.
pub const X_IDX: usize = 3;

/// Position of the bomb's column among the program arguments.
pub const Y_IDX: usize = 4;

/// What one run needs: the board to read, where to write the result, and
/// the cell of the bomb to set off.
#[derive(Debug)]
pub struct Config {
    pub name_input: String,
    pub path_output: String,
    pub x: usize,
    pub y: usize,
}

/// A coordinate argument read as a number, if it is one that fits in a `usize`.
pub open spec fn coordinate_spec(s: Seq<char>) -> Result<usize, BombermanError> {
    match decimal_value(s, usize::MAX as nat) {
        Some(v) => Ok(v as usize),
        None => Err(BombermanError::InvalidCoordinate),
    }
}

/// Reads a coordinate argument: a decimal number that fits in a `usize`,
/// else `InvalidCoordinate`.
pub fn get_coordinate(s: &String) -> (r: Result<usize, BombermanError>)
    ensures
        r == coordinate_spec(s@),
{
    let chars = chars_of(s.as_str());
    assert(chars@.subrange(0, chars@.len() as int) =~= s@);
    match parse_decimal(&chars, 0, chars.len(), usize::MAX as u64) {
        Some(v) => Ok(v as usize),
        None => Err(BombermanError::InvalidCoordinate),
    }
}

impl Config {
    /// Reads the program arguments: the program name, the input board path,
    /// the output directory, and the bomb's row and column. The output goes
    /// to the output directory joined with the input path.
    pub fn new(args: &Vec<String>) -> (r: Result<Config, BombermanError>)
        ensures
            args@.len() != 5 ==> r == Err::<Config, BombermanError>(
                BombermanError::InsufficientInput,
            ),
            args@.len() == 5 ==> match (
                coordinate_spec(args@[X_IDX as int]@),
                coordinate_spec(args@[Y_IDX as int]@),
            ) {
                (Err(e), _) => r == Err::<Config, BombermanError>(e),
                (Ok(_), Err(e)) => r == Err::<Config, BombermanError>(e),
                (Ok(x), Ok(y)) => r is Ok && {
                    let c = r->Ok_0;
                    &&& c.name_input@ == args@[INPUT_IDX as int]@
                    &&& c.path_output@ == args@[OUTPUT_IDX as int]@ + args@[INPUT_IDX as int]@
                    &&& c.x == x
                    &&& c.y == y
                },
            },
    {
        if args.len() != 5 {
            return Err(BombermanError::InsufficientInput);
        }
        let x = match get_coordinate(&args[X_IDX]) {
            Ok(v) => v,
            Err(e) => return Err(e),
        };
        let y = match get_coordinate(&args[Y_IDX]) {
            Ok(v) => v,
            Err(e) => return Err(e),
        };
        let name_input = args[INPUT_IDX].clone();
        let path_output = args[OUTPUT_IDX].clone().concat(args[INPUT_IDX].as_str());
        Ok(Config { name_input, path_output, x, y })
    }
}

} // verus!
