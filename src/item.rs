use vstd::prelude::*;

use crate::coordinate::Direction;
use crate::error::BombermanError;
use crate::text::{
    all_digits, chars_of, decimal_text, decimal_value, digit_char, digit_value, digits_value,
    is_digit, lemma_decimal_text, lemma_digits_value_prefix,
};

verus! {

/// What a cell of the board holds.
#[derive(Debug, Clone, Copy, PartialEq, Eq, Structural, Hash)]
pub enum Item {
    /// An enemy with its remaining life.
    Enemy(u32),
    /// A bomb whose blast is stopped by rocks and walls; it carries its range.
    NormalBomb(u32),
    /// A bomb whose blast passes through rocks; it carries its range.
    TransferBomb(u32),
    Rock,
    Wall,
    /// A fixture that turns a passing blast towards its direction.
    Deflection(Direction),
    Empty,
}

/// The letter that names a direction in a deflection token.
pub open spec fn direction_char(d: Direction) -> char {
    match d {
        Direction::Left => 'L',
        Direction::Right => 'R',
        Direction::Up => 'U',
        Direction::Down => 'D',
    }
}

pub open spec fn direction_of_char(c: char) -> Option<Direction> {
    if c == 'L' {
        Some(Direction::Left)
    } else if c == 'R' {
        Some(Direction::Right)
    } else if c == 'U' {
        Some(Direction::Up)
    } else if c == 'D' {
        Some(Direction::Down)
    } else {
        None
    }
}

/// The number after the leading letter of a token, or `e` when it is not
/// a decimal number that fits in a `u32`.
pub open spec fn value_spec(s: Seq<char>, e: BombermanError) -> Result<u32, BombermanError> {
    if s.len() == 0 {
        Err(e)
    } else {
        match decimal_value(s.drop_first(), u32::MAX as nat) {
            Some(n) => Ok(n as u32),
            None => Err(e),
        }
    }
}

/// The direction of a two-character token, or `e` for anything else.
pub open spec fn address_spec(s: Seq<char>, e: BombermanError) -> Result<Direction, BombermanError> {
    if s.len() != 2 {
        Err(e)
    } else {
        match direction_of_char(s[1]) {
            Some(d) => Ok(d),
            None => Err(e),
        }
    }
}

/// How a board token reads as an item.
pub open spec fn parse_item(s: Seq<char>) -> Result<Item, BombermanError> {
    if s.len() == 0 {
        Err(BombermanError::InvalidItem)
    } else if s.len() == 1 {
        if s[0] == 'W' {
            Ok(Item::Wall)
        } else if s[0] == 'R' {
            Ok(Item::Rock)
        } else {
            Err(BombermanError::InvalidItem)
        }
    } else if s[0] == 'F' {
        match value_spec(s, BombermanError::InvalidEnemyFormat) {
            Ok(n) => Ok(Item::Enemy(n)),
            Err(e) => Err(e),
        }
    } else if s[0] == 'B' {
        match value_spec(s, BombermanError::InvalidNormalBombFormat) {
            Ok(n) => Ok(Item::NormalBomb(n)),
            Err(e) => Err(e),
        }
    } else if s[0] == 'S' {
        match value_spec(s, BombermanError::InvalidTransferBombFormat) {
            Ok(n) => Ok(Item::TransferBomb(n)),
            Err(e) => Err(e),
        }
    } else if s[0] == 'D' {
        match address_spec(s, BombermanError::InvalidDeflectionFormat) {
            Ok(d) => Ok(Item::Deflection(d)),
            Err(e) => Err(e),
        }
    } else {
        Err(BombermanError::InvalidItem)
    }
}

/// The canonical token of an item.
pub open spec fn item_text(i: Item) -> Seq<char> {
    match i {
        Item::Enemy(n) => seq!['F'] + decimal_text(n as nat),
        Item::NormalBomb(n) => seq!['B'] + decimal_text(n as nat),
        Item::TransferBomb(n) => seq!['S'] + decimal_text(n as nat),
        Item::Deflection(d) => seq!['D', direction_char(d)],
        Item::Rock => seq!['R'],
        Item::Wall => seq!['W'],
        Item::Empty => seq!['_'],
    }
}

/// Reads the decimal number in `s[lo..hi]`, if it is non-empty, made of
/// digits only, and at most `limit`.
pub fn parse_decimal(s: &Vec<char>, lo: usize, hi: usize, limit: u64) -> (r: Option<u64>)
    requires
        lo <= hi <= s@.len(),
    ensures
        match r {
            Some(v) => decimal_value(s@.subrange(lo as int, hi as int), limit as nat) == Some(
                v as nat,
            ),
            None => decimal_value(s@.subrange(lo as int, hi as int), limit as nat) is None,
        },
{
    let ghost t = s@.subrange(lo as int, hi as int);
    if lo == hi {
        return None;
    }
    let mut acc: u64 = 0;
    let mut i: usize = lo;
    while i < hi
        invariant
            lo <= i <= hi <= s@.len(),
            t == s@.subrange(lo as int, hi as int),
            all_digits(t.take(i - lo)),
            acc as nat == digits_value(t.take(i - lo)),
            acc <= limit,
        decreases hi - i,
    {
        let c = s[i];
        if !('0' <= c && c <= '9') {
            assert(!is_digit(t[i - lo]));
            return None;
        }
        let d: u64 = (c as u32 - '0' as u32) as u64;
        assert(t.take(i - lo + 1).drop_last() =~= t.take(i - lo));
        assert(t.take(i - lo + 1).last() == c);
        assert(d as nat == digit_value(c));
        if d > limit || acc > (limit - d) / 10 {
            assert(digits_value(t.take(i - lo + 1)) > limit as nat) by (nonlinear_arith)
                requires
                    digits_value(t.take(i - lo + 1)) == acc * 10 + d,
                    d > limit || acc > (limit - d) / 10,
            {
            }
            proof {
                lemma_digits_value_prefix(t, i - lo + 1);
            }
            return None;
        }
        assert(acc * 10 + d <= limit) by (nonlinear_arith)
            requires
                d <= limit,
                acc <= (limit - d) / 10,
        {
        }
        acc = acc * 10 + d;
        i = i + 1;
        assert(all_digits(t.take(i - lo)));
    }
    assert(t.take(i - lo) =~= t);
    Some(acc)
}

/// Reads the number that follows the leading letter of `s`, failing with
/// `e` when that is not a decimal number that fits in a `u32`.
pub fn get_value(s: &str, e: BombermanError) -> (r: Result<u32, BombermanError>)
    ensures
        r == value_spec(s@, e),
{
    let chars = chars_of(s);
    get_value_of(&chars, e)
}

fn get_value_of(s: &Vec<char>, e: BombermanError) -> (r: Result<u32, BombermanError>)
    ensures
        r == value_spec(s@, e),
{
    if s.len() == 0 {
        return Err(e);
    }
    assert(s@.subrange(1, s@.len() as int) =~= s@.drop_first());
    match parse_decimal(s, 1, s.len(), u32::MAX as u64) {
        Some(v) => Ok(v as u32),
        None => Err(e),
    }
}

/// Reads the direction letter of a two-character deflection token,
/// failing with `e` for anything else.
pub fn get_address(s: &str, e: BombermanError) -> (r: Result<Direction, BombermanError>)
    ensures
        r == address_spec(s@, e),
{
    let chars = chars_of(s);
    get_address_of(&chars, e)
}

fn get_address_of(s: &Vec<char>, e: BombermanError) -> (r: Result<Direction, BombermanError>)
    ensures
        r == address_spec(s@, e),
{
    if s.len() != 2 {
        return Err(e);
    }
    let c = s[1];
    if c == 'L' {
        Ok(Direction::Left)
    } else if c == 'R' {
        Ok(Direction::Right)
    } else if c == 'U' {
        Ok(Direction::Up)
    } else if c == 'D' {
        Ok(Direction::Down)
    } else {
        Err(e)
    }
}

/// Reads the token `s[lo..hi]` as an item.
pub fn parse_token(s: &Vec<char>, lo: usize, hi: usize) -> (r: Result<Item, BombermanError>)
    requires
        lo <= hi <= s@.len(),
    ensures
        r == parse_item(s@.subrange(lo as int, hi as int)),
{
    let ghost t = s@.subrange(lo as int, hi as int);
    let n = hi - lo;
    if n == 0 {
        return Err(BombermanError::InvalidItem);
    }
    let first = s[lo];
    if n == 1 {
        if first == 'W' {
            return Ok(Item::Wall);
        } else if first == 'R' {
            return Ok(Item::Rock);
        } else {
            return Err(BombermanError::InvalidItem);
        }
    }
    assert(s@.subrange(lo as int + 1, hi as int) =~= t.drop_first());
    if first == 'F' {
        match parse_decimal(s, lo + 1, hi, u32::MAX as u64) {
            Some(v) => Ok(Item::Enemy(v as u32)),
            None => Err(BombermanError::InvalidEnemyFormat),
        }
    } else if first == 'B' {
        match parse_decimal(s, lo + 1, hi, u32::MAX as u64) {
            Some(v) => Ok(Item::NormalBomb(v as u32)),
            None => Err(BombermanError::InvalidNormalBombFormat),
        }
    } else if first == 'S' {
        match parse_decimal(s, lo + 1, hi, u32::MAX as u64) {
            Some(v) => Ok(Item::TransferBomb(v as u32)),
            None => Err(BombermanError::InvalidTransferBombFormat),
        }
    } else if first == 'D' {
        if n != 2 {
            return Err(BombermanError::InvalidDeflectionFormat);
        }
        let c = s[lo + 1];
        if c == 'L' {
            Ok(Item::Deflection(Direction::Left))
        } else if c == 'R' {
            Ok(Item::Deflection(Direction::Right))
        } else if c == 'U' {
            Ok(Item::Deflection(Direction::Up))
        } else if c == 'D' {
            Ok(Item::Deflection(Direction::Down))
        } else {
            Err(BombermanError::InvalidDeflectionFormat)
        }
    } else {
        Err(BombermanError::InvalidItem)
    }
}

impl Item {
    /// Reads a board token: `W`, `R`, `F<life>`, `B<range>`, `S<range>` or
    /// `D<L|R|U|D>`.
    pub fn new(s: &str) -> (r: Result<Item, BombermanError>)
        ensures
            r == parse_item(s@),
    {
        let chars = chars_of(s);
        let r = parse_token(&chars, 0, chars.len());
        assert(chars@.subrange(0, chars@.len() as int) =~= s@);
        r
    }
}

/// The one-character text of a decimal digit.
fn digit_str(d: u32) -> (r: &'static str)
    requires
        d < 10,
    ensures
        r@ == seq![digit_char(d as nat)],
{
    proof {
        reveal_strlit("0");
        reveal_strlit("1");
        reveal_strlit("2");
        reveal_strlit("3");
        reveal_strlit("4");
        reveal_strlit("5");
        reveal_strlit("6");
        reveal_strlit("7");
        reveal_strlit("8");
        reveal_strlit("9");
    }
    if d == 0 {
        "0"
    } else if d == 1 {
        "1"
    } else if d == 2 {
        "2"
    } else if d == 3 {
        "3"
    } else if d == 4 {
        "4"
    } else if d == 5 {
        "5"
    } else if d == 6 {
        "6"
    } else if d == 7 {
        "7"
    } else if d == 8 {
        "8"
    } else {
        "9"
    }
}

/// Appends the decimal form of `n` to `out`.
pub fn push_decimal(out: &mut String, n: u32)
    ensures
        final(out)@ == old(out)@ + decimal_text(n as nat),
    decreases n,
{
    if n < 10 {
        out.append(digit_str(n));
    } else {
        push_decimal(out, n / 10);
        out.append(digit_str(n % 10));
        assert(decimal_text(n as nat) == decimal_text((n / 10) as nat).push(
            digit_char((n % 10) as nat),
        ));
    }
}

impl Item {
    /// The canonical token of this item, `_` for an empty cell.
    pub fn to_string(&self) -> (r: String)
        ensures
            r@ == item_text(*self),
    {
        proof {
            reveal_strlit("F");
            reveal_strlit("B");
            reveal_strlit("S");
            reveal_strlit("DL");
            reveal_strlit("DR");
            reveal_strlit("DU");
            reveal_strlit("DD");
            reveal_strlit("R");
            reveal_strlit("W");
            reveal_strlit("_");
        }
        match self {
            Item::Enemy(n) => {
                let mut s = String::from_str("F");
                push_decimal(&mut s, *n);
                assert(s@ =~= item_text(*self));
                s
            },
            Item::NormalBomb(n) => {
                let mut s = String::from_str("B");
                push_decimal(&mut s, *n);
                assert(s@ =~= item_text(*self));
                s
            },
            Item::TransferBomb(n) => {
                let mut s = String::from_str("S");
                push_decimal(&mut s, *n);
                assert(s@ =~= item_text(*self));
                s
            },
            Item::Deflection(Direction::Left) => String::from_str("DL"),
            Item::Deflection(Direction::Right) => String::from_str("DR"),
            Item::Deflection(Direction::Up) => String::from_str("DU"),
            Item::Deflection(Direction::Down) => String::from_str("DD"),
            Item::Rock => String::from_str("R"),
            Item::Wall => String::from_str("W"),
            Item::Empty => String::from_str("_"),
        }
    }
}

/// Reading the canonical token of any item but `Empty` gives the item back.
/// (`Empty` is written `_`, which marks a blank cell and is no item token.)
pub proof fn lemma_parse_item_text(i: Item)
    requires
        i != Item::Empty,
    ensures
        parse_item(item_text(i)) == Ok::<Item, BombermanError>(i),
{
    match i {
        Item::Enemy(n) => lemma_number_token(n, 'F'),
        Item::NormalBomb(n) => lemma_number_token(n, 'B'),
        Item::TransferBomb(n) => lemma_number_token(n, 'S'),
        _ => {},
    }
}

proof fn lemma_number_token(n: u32, c: char)
    ensures
        (seq![c] + decimal_text(n as nat)).drop_first() == decimal_text(n as nat),
        (seq![c] + decimal_text(n as nat)).len() >= 2,
        (seq![c] + decimal_text(n as nat))[0] == c,
        decimal_value(decimal_text(n as nat), u32::MAX as nat) == Some(n as nat),
{
    lemma_decimal_text(n as nat);
    assert((seq![c] + decimal_text(n as nat)).drop_first() =~= decimal_text(n as nat));
}

} // verus!
