use vstd::prelude::*;

use crate::coordinate::{Coordinate, Direction};
use crate::error::BombermanError;
use crate::item::{item_text, parse_item, parse_token, Item};
use crate::text::{chars_of, line_texts, word_bounds, words};

verus! {

/// Where cell `(x, y)` of an `n`-by-`n` grid is stored, row by row.
pub open spec fn cell_index(x: int, y: int, n: int) -> int {
    x * n + y
}

pub proof fn lemma_cell_index(x: int, y: int, n: int)
    requires
        0 <= x < n,
        0 <= y < n,
    ensures
        0 <= cell_index(x, y, n) < n * n,
{
    assert(0 <= x * n + y < n * n) by (nonlinear_arith)
        requires
            0 <= x < n,
            0 <= y < n,
    ;
}

pub proof fn lemma_cell_index_injective(x1: int, y1: int, x2: int, y2: int, n: int)
    requires
        0 <= x1 < n,
        0 <= y1 < n,
        0 <= x2 < n,
        0 <= y2 < n,
        cell_index(x1, y1, n) == cell_index(x2, y2, n),
    ensures
        x1 == x2 && y1 == y2,
{
    assert(x1 == x2) by (nonlinear_arith)
        requires
            0 <= x1 < n,
            0 <= y1 < n,
            0 <= x2 < n,
            0 <= y2 < n,
            x1 * n + y1 == x2 * n + y2,
    ;
}

/// The storage position of in-grid cell `(x, y)` in a grid of `len == n * n` cells.
fn index_of(x: u32, y: u32, n: u32, len: usize) -> (i: usize)
    requires
        x < n,
        y < n,
        len == n * n,
    ensures
        i == cell_index(x as int, y as int, n as int),
        i < len,
{
    proof {
        lemma_cell_index(x as int, y as int, n as int);
        assert(x * n <= x * n + y);
    }
    let row: usize = (x as usize) * (n as usize);
    row + (y as usize)
}

/// The two kinds of bomb; each stops a blast on different items.
#[derive(Debug, Clone, Copy, PartialEq, Eq, Structural)]
pub enum BombKind {
    Normal,
    Transfer,
}

/// What a cell's content does to a wave travelling in direction `d`:
/// `None` stops it there, `Some(n)` sends it on in direction `n`.
pub open spec fn effect_spec(kind: BombKind, item: Item, d: Direction) -> Option<Direction> {
    match item {
        Item::Wall => None,
        Item::Rock => match kind {
            BombKind::Normal => None,
            BombKind::Transfer => Some(d),
        },
        Item::Deflection(n) => Some(n),
        _ => Some(d),
    }
}

/// Rule of a normal bomb: rocks and walls stop the wave, deflections turn it.
pub fn normal_bomb_effect(item: &Item, d: Direction) -> (r: Option<Direction>)
    ensures
        r == effect_spec(BombKind::Normal, *item, d),
{
    match item {
        Item::Rock | Item::Wall => None,
        Item::Deflection(n) => Some(*n),
        _ => Some(d),
    }
}

/// Rule of a transfer bomb: only walls stop the wave, deflections turn it.
pub fn normal_transfer_effect(item: &Item, d: Direction) -> (r: Option<Direction>)
    ensures
        r == effect_spec(BombKind::Transfer, *item, d),
{
    match item {
        Item::Wall => None,
        Item::Deflection(n) => Some(*n),
        _ => Some(d),
    }
}

fn bomb_effect(kind: BombKind, item: &Item, d: Direction) -> (r: Option<Direction>)
    ensures
        r == effect_spec(kind, *item, d),
{
    match kind {
        BombKind::Normal => normal_bomb_effect(item, d),
        BombKind::Transfer => normal_transfer_effect(item, d),
    }
}

/// How many entries of `s` are the cell `(x, y)`.
pub open spec fn visits(s: Seq<Coordinate>, x: int, y: int) -> nat
    decreases s.len(),
{
    if s.len() == 0 {
        0
    } else {
        visits(s.drop_last(), x, y) + if s.last().x == x && s.last().y == y {
            1nat
        } else {
            0nat
        }
    }
}

pub proof fn lemma_visits_push(s: Seq<Coordinate>, c: Coordinate, x: int, y: int)
    ensures
        visits(s.push(c), x, y) == visits(s, x, y) + if c.x == x && c.y == y {
            1nat
        } else {
            0nat
        },
{
    assert(s.push(c).drop_last() =~= s);
}

pub proof fn lemma_visits_len(s: Seq<Coordinate>, x: int, y: int)
    ensures
        visits(s, x, y) <= s.len(),
    decreases s.len(),
{
    if s.len() > 0 {
        lemma_visits_len(s.drop_last(), x, y);
    }
}

/// The damage that each cell has taken from one detonation.
pub struct DamageMap {
    counts: Vec<u64>,
    dimension: u32,
}

impl DamageMap {
    pub closed spec fn wf(&self) -> bool {
        self.counts@.len() == self.dimension * self.dimension
    }

    /// Side length of the grid the map covers.
    pub closed spec fn dim(&self) -> nat {
        self.dimension as nat
    }

    /// Hits taken by cell `(x, y)`; zero off the grid.
    pub closed spec fn damage(&self, x: int, y: int) -> nat {
        if 0 <= x < self.dimension && 0 <= y < self.dimension {
            self.counts@[cell_index(x, y, self.dimension as int)] as nat
        } else {
            0
        }
    }

    /// A map of the given size in which no cell has been hit.
    pub fn new(dimension: u32) -> (r: DamageMap)
        requires
            dimension * dimension <= usize::MAX,
        ensures
            r.wf(),
            r.dim() == dimension,
            forall|x: int, y: int| r.damage(x, y) == 0,
    {
        let n: usize = (dimension as usize) * (dimension as usize);
        let mut counts: Vec<u64> = Vec::new();
        while counts.len() < n
            invariant
                counts@.len() <= n,
                n == dimension * dimension,
                forall|i: int| 0 <= i < counts@.len() ==> counts@[i] == 0,
            decreases n - counts@.len(),
        {
            counts.push(0);
        }
        let r = DamageMap { counts, dimension };
        assert forall|x: int, y: int| r.damage(x, y) == 0 by {
            if 0 <= x < dimension && 0 <= y < dimension {
                lemma_cell_index(x, y, dimension as int);
            }
        }
        r
    }

    /// Hits taken by the cell at `c`; zero when `c` is off the grid.
    pub fn damage_at(&self, c: &Coordinate) -> (r: u64)
        requires
            self.wf(),
        ensures
            r == self.damage(c.x as int, c.y as int),
    {
        if c.x < self.dimension && c.y < self.dimension {
            proof {
                lemma_cell_index(c.x as int, c.y as int, self.dimension as int);
            }
            self.counts[index_of(c.x, c.y, self.dimension, self.counts.len())]
        } else {
            0
        }
    }

    /// Whether the cell at `c` was hit at all.
    pub fn contains(&self, c: &Coordinate) -> (r: bool)
        requires
            self.wf(),
        ensures
            r == (self.damage(c.x as int, c.y as int) > 0),
    {
        self.damage_at(c) > 0
    }

    /// Adds one hit to the in-grid cell at `c`.
    pub fn hit(&mut self, c: &Coordinate)
        requires
            old(self).wf(),
            c.x < old(self).dim(),
            c.y < old(self).dim(),
            old(self).damage(c.x as int, c.y as int) < u64::MAX,
        ensures
            final(self).wf(),
            final(self).dim() == old(self).dim(),
            forall|x: int, y: int|
                #![trigger final(self).damage(x, y)]
                final(self).damage(x, y) == old(self).damage(x, y) + if x == c.x && y == c.y {
                    1nat
                } else {
                    0nat
                },
    {
        let n = self.dimension;
        proof {
            lemma_cell_index(c.x as int, c.y as int, n as int);
        }
        let i: usize = index_of(c.x, c.y, n, self.counts.len());
        let v = self.counts[i];
        self.counts.set(i, v + 1);
        assert forall|x: int, y: int|
            #![trigger self.damage(x, y)]
            self.damage(x, y) == old(self).damage(x, y) + if x == c.x && y == c.y {
                1nat
            } else {
                0nat
            } by {
            if 0 <= x < n && 0 <= y < n {
                lemma_cell_index(x, y, n as int);
                if cell_index(x, y, n as int) == i {
                    lemma_cell_index_injective(x, y, c.x as int, c.y as int, n as int);
                }
            }
        }
    }
}

/// What a cell holds after taking `damage` hits: an enemy loses that much
/// life and is gone once it has none left, a bomb is destroyed by any hit,
/// and everything else stays as it is.
pub open spec fn damaged(item: Item, damage: nat) -> Item {
    if damage == 0 {
        item
    } else {
        match item {
            Item::Enemy(life) => if life <= damage {
                Item::Empty
            } else {
                Item::Enemy((life - damage) as u32)
            },
            Item::NormalBomb(_) | Item::TransferBomb(_) => Item::Empty,
            _ => item,
        }
    }
}

fn damaged_item(item: Item, damage: u64) -> (r: Item)
    ensures
        r == damaged(item, damage as nat),
{
    if damage == 0 {
        return item;
    }
    match item {
        Item::Enemy(life) => {
            if (life as u64) <= damage {
                Item::Empty
            } else {
                Item::Enemy(life - damage as u32)
            }
        },
        Item::NormalBomb(_) | Item::TransferBomb(_) => Item::Empty,
        _ => item,
    }
}

/// The board: a square grid of cells, each holding an item.
#[derive(Debug)]
pub struct Game {
    map: Vec<Item>,
    map_dimension: u32,
}

impl Game {
    pub closed spec fn wf(&self) -> bool {
        self.map@.len() == self.map_dimension * self.map_dimension
    }

    /// Side length of the board.
    pub closed spec fn dim(&self) -> nat {
        self.map_dimension as nat
    }

    /// What cell `(x, y)` holds; off the board every cell is empty.
    pub closed spec fn cell(&self, x: int, y: int) -> Item {
        if 0 <= x < self.map_dimension && 0 <= y < self.map_dimension {
            self.map@[cell_index(x, y, self.map_dimension as int)]
        } else {
            Item::Empty
        }
    }

    /// A position of this board.
    pub open spec fn on_board(&self, c: Coordinate) -> bool {
        c.max_value == self.dim() && c.in_bounds()
    }

    /// The cells that one wave visits, in order: it starts at `c` heading in
    /// direction `d` and may take `budget` more cells, this one included.
    pub open spec fn wave(&self, kind: BombKind, c: Coordinate, d: Direction, budget: nat) -> Seq<
        Coordinate,
    >
        decreases budget,
    {
        if budget == 0 {
            Seq::empty()
        } else {
            seq![c] + match effect_spec(kind, self.cell(c.x as int, c.y as int), d) {
                None => Seq::empty(),
                Some(n) => match c.step_spec(n) {
                    None => Seq::empty(),
                    Some(next) => self.wave(kind, next, n, (budget - 1) as nat),
                },
            }
        }
    }

    /// The hits that cell `(x, y)` takes when a bomb of the given kind and
    /// range goes off at `c`: one for each visit of each of the four waves.
    pub open spec fn blast_damage(
        &self,
        kind: BombKind,
        c: Coordinate,
        range: nat,
        x: int,
        y: int,
    ) -> nat {
        visits(self.wave(kind, c, Direction::Right, range + 1), x, y) + visits(
            self.wave(kind, c, Direction::Left, range + 1),
            x,
            y,
        ) + visits(self.wave(kind, c, Direction::Up, range + 1), x, y) + visits(
            self.wave(kind, c, Direction::Down, range + 1),
            x,
            y,
        )
    }

    /// What the cell at `c` holds; `Empty` off the board.
    pub fn get(&self, c: &Coordinate) -> (r: Item)
        requires
            self.wf(),
        ensures
            r == self.cell(c.x as int, c.y as int),
    {
        if c.x < self.map_dimension && c.y < self.map_dimension {
            proof {
                lemma_cell_index(c.x as int, c.y as int, self.map_dimension as int);
            }
            self.map[index_of(c.x, c.y, self.map_dimension, self.map.len())]
        } else {
            Item::Empty
        }
    }
}

impl Game {
    /// Applies the hits of `affected` to the board: enemies lose life and
    /// die, bombs that were hit are removed; other cells stay unchanged.
    pub fn update_damage(&mut self, affected: &DamageMap)
        requires
            old(self).wf(),
            affected.wf(),
            affected.dim() == old(self).dim(),
        ensures
            final(self).wf(),
            final(self).dim() == old(self).dim(),
            forall|x: int, y: int|
                #![trigger final(self).cell(x, y)]
                final(self).cell(x, y) == damaged(old(self).cell(x, y), affected.damage(x, y)),
    {
        let n = self.map.len();
        let mut i: usize = 0;
        while i < n
            invariant
                self.map_dimension == old(self).map_dimension,
                n == self.map@.len(),
                n == old(self).map@.len(),
                n == affected.counts@.len(),
                i <= n,
                forall|j: int|
                    0 <= j < i ==> self.map@[j] == damaged(
                        old(self).map@[j],
                        affected.counts@[j] as nat,
                    ),
                forall|j: int| i <= j < n ==> self.map@[j] == old(self).map@[j],
            decreases n - i,
        {
            let item = damaged_item(self.map[i], affected.counts[i]);
            self.map.set(i, item);
            i = i + 1;
        }
        proof {
            assert forall|x: int, y: int|
                #![trigger self.cell(x, y)]
                self.cell(x, y) == damaged(old(self).cell(x, y), affected.damage(x, y)) by {
                if 0 <= x < self.map_dimension && 0 <= y < self.map_dimension {
                    lemma_cell_index(x, y, self.map_dimension as int);
                }
            }
        }
    }

    /// Sets off the bomb at row `x`, column `y` and applies its blast to the
    /// board. Fails with `InvalidBombCoordinate`, leaving the board as it
    /// was, when that cell holds no bomb.
    pub fn denotate_bomb(&mut self, x: u32, y: u32) -> (r: Result<(), BombermanError>)
        requires
            old(self).wf(),
        ensures
            final(self).wf(),
            final(self).dim() == old(self).dim(),
            match old(self).cell(x as int, y as int) {
                Item::NormalBomb(range) => r is Ok && forall|i: int, j: int|
                    #![trigger final(self).cell(i, j)]
                    final(self).cell(i, j) == damaged(
                        old(self).cell(i, j),
                        old(self).blast_damage(
                            BombKind::Normal,
                            Coordinate { x, y, max_value: old(self).dim() as u32 },
                            range as nat,
                            i,
                            j,
                        ),
                    ),
                Item::TransferBomb(range) => r is Ok && forall|i: int, j: int|
                    #![trigger final(self).cell(i, j)]
                    final(self).cell(i, j) == damaged(
                        old(self).cell(i, j),
                        old(self).blast_damage(
                            BombKind::Transfer,
                            Coordinate { x, y, max_value: old(self).dim() as u32 },
                            range as nat,
                            i,
                            j,
                        ),
                    ),
                _ => {
                    &&& r == Err::<(), BombermanError>(BombermanError::InvalidBombCoordinate)
                    &&& *final(self) == *old(self)
                },
            },
    {
        let bomb = Coordinate::new(x, y, self.map_dimension);
        let (kind, range) = match self.get(&bomb) {
            Item::NormalBomb(range) => (BombKind::Normal, range),
            Item::TransferBomb(range) => (BombKind::Transfer, range),
            _ => return Err(BombermanError::InvalidBombCoordinate),
        };
        let affected = detonate_explosion_2(self, &bomb, range, kind);
        self.update_damage(&affected);
        Ok(())
    }
}

/// The damage map of one detonation: the bomb at `bomb`, of the given
/// kind and range, sends a wave in each of the four directions.
pub fn detonate_explosion_2(game: &Game, bomb: &Coordinate, range: u32, kind: BombKind) -> (r:
    DamageMap)
    requires
        game.wf(),
        game.on_board(*bomb),
    ensures
        r.wf(),
        r.dim() == game.dim(),
        forall|x: int, y: int|
            #![trigger r.damage(x, y)]
            r.damage(x, y) == game.blast_damage(kind, *bomb, range as nat, x, y),
{
    let cells = game.map.len();
    assert(game.map_dimension * game.map_dimension == cells);
    let mut affected = DamageMap::new(game.map_dimension);
    detonate_explosion(game, &mut affected, bomb, range, kind);
    affected
}

/// Adds to `affected` the hits of the four waves of a bomb at `bomb`.
pub fn detonate_explosion(
    game: &Game,
    affected: &mut DamageMap,
    bomb: &Coordinate,
    range: u32,
    kind: BombKind,
)
    requires
        game.wf(),
        game.on_board(*bomb),
        old(affected).wf(),
        old(affected).dim() == game.dim(),
        forall|x: int, y: int| old(affected).damage(x, y) <= u32::MAX,
    ensures
        final(affected).wf(),
        final(affected).dim() == game.dim(),
        forall|x: int, y: int|
            #![trigger final(affected).damage(x, y)]
            final(affected).damage(x, y) == old(affected).damage(x, y) + game.blast_damage(
                kind,
                *bomb,
                range as nat,
                x,
                y,
            ),
{
    let budget: u64 = range as u64 + 1;
    let ghost b = budget as nat;
    let ghost w_right = game.wave(kind, *bomb, Direction::Right, b);
    let ghost w_left = game.wave(kind, *bomb, Direction::Left, b);
    let ghost w_up = game.wave(kind, *bomb, Direction::Up, b);
    proof {
        assert forall|x: int, y: int| old(affected).damage(x, y) + budget <= u64::MAX by {}
    }
    expansive_wave(game, kind, affected, *bomb, Direction::Right, budget);
    proof {
        assert forall|x: int, y: int| affected.damage(x, y) + budget <= u64::MAX by {
            lemma_wave_len(game, kind, *bomb, Direction::Right, b);
            lemma_visits_len(w_right, x, y);
        }
    }
    expansive_wave(game, kind, affected, *bomb, Direction::Left, budget);
    proof {
        assert forall|x: int, y: int| affected.damage(x, y) + budget <= u64::MAX by {
            lemma_wave_len(game, kind, *bomb, Direction::Right, b);
            lemma_visits_len(w_right, x, y);
            lemma_wave_len(game, kind, *bomb, Direction::Left, b);
            lemma_visits_len(w_left, x, y);
        }
    }
    expansive_wave(game, kind, affected, *bomb, Direction::Up, budget);
    proof {
        assert forall|x: int, y: int| affected.damage(x, y) + budget <= u64::MAX by {
            lemma_wave_len(game, kind, *bomb, Direction::Right, b);
            lemma_visits_len(w_right, x, y);
            lemma_wave_len(game, kind, *bomb, Direction::Left, b);
            lemma_visits_len(w_left, x, y);
            lemma_wave_len(game, kind, *bomb, Direction::Up, b);
            lemma_visits_len(w_up, x, y);
        }
    }
    expansive_wave(game, kind, affected, *bomb, Direction::Down, budget);
}

/// What a board token puts in its cell: `_` leaves it empty, anything else
/// is read as an item.
pub open spec fn cell_of_token(w: Seq<char>) -> Result<Item, BombermanError> {
    if w == seq!['_'] {
        Ok(Item::Empty)
    } else {
        parse_item(w)
    }
}

/// The cells of a row of tokens, or the error of its first bad token.
pub open spec fn read_row(t: Seq<Seq<char>>) -> Result<Seq<Item>, BombermanError>
    decreases t.len(),
{
    if t.len() == 0 {
        Ok(Seq::empty())
    } else {
        match cell_of_token(t[0]) {
            Err(e) => Err(e),
            Ok(it) => match read_row(t.drop_first()) {
                Err(e) => Err(e),
                Ok(rest) => Ok(seq![it] + rest),
            },
        }
    }
}

/// `r` with `items` put in front of its cells.
pub open spec fn prepend_items(items: Seq<Item>, r: Result<Seq<Item>, BombermanError>) -> Result<
    Seq<Item>,
    BombermanError,
> {
    match r {
        Err(e) => Err(e),
        Ok(rest) => Ok(items + rest),
    }
}

/// A board text is square when it has `n >= 1` lines of `n` tokens each.
pub open spec fn is_square(lines: Seq<Seq<char>>) -> bool {
    lines.len() >= 1 && forall|i: int|
        0 <= i < lines.len() ==> (#[trigger] words(lines[i])).len() == lines.len()
}

/// The rows of a board text, or the error of its first bad token.
pub open spec fn read_board(lines: Seq<Seq<char>>) -> Result<Seq<Seq<Item>>, BombermanError>
    decreases lines.len(),
{
    if lines.len() == 0 {
        Ok(Seq::empty())
    } else {
        match read_row(words(lines[0])) {
            Err(e) => Err(e),
            Ok(row) => match read_board(lines.drop_first()) {
                Err(e) => Err(e),
                Ok(rest) => Ok(seq![row] + rest),
            },
        }
    }
}

/// `r` with `rows` put in front of its rows.
pub open spec fn prepend_rows(
    rows: Seq<Seq<Item>>,
    r: Result<Seq<Seq<Item>>, BombermanError>,
) -> Result<Seq<Seq<Item>>, BombermanError> {
    match r {
        Err(e) => Err(e),
        Ok(rest) => Ok(rows + rest),
    }
}

/// Reads the tokens of `line` into cells, or gives the error of the first
/// bad token.
fn read_row_items(line: &str) -> (r: Result<Vec<Item>, BombermanError>)
    ensures
        match read_row(words(line@)) {
            Ok(items) => r is Ok && r->Ok_0@ == items,
            Err(e) => r == Err::<Vec<Item>, BombermanError>(e),
        },
{
    let chars = chars_of(line);
    let bounds = word_bounds(&chars);
    let ghost t = words(line@);
    let mut items: Vec<Item> = Vec::new();
    let mut k: usize = 0;
    proof {
        assert(t.skip(0) =~= t);
        match read_row(t) {
            Err(e) => {},
            Ok(rest) => {
                assert(items@ + rest =~= rest);
            },
        }
    }
    while k < bounds.len()
        invariant
            chars@ == line@,
            t == words(line@),
            bounds@.len() == t.len(),
            forall|j: int|
                0 <= j < bounds@.len() ==> {
                    &&& (#[trigger] bounds@[j]).0 <= bounds@[j].1 <= chars@.len()
                    &&& chars@.subrange(bounds@[j].0 as int, bounds@[j].1 as int) == t[j]
                },
            k <= bounds@.len(),
            items@.len() == k,
            read_row(t) == prepend_items(items@, read_row(t.skip(k as int))),
        decreases bounds@.len() - k,
    {
        let (lo, hi) = bounds[k];
        let ghost w = t[k as int];
        proof {
            assert(t.skip(k as int)[0] == w);
            assert(t.skip(k as int).drop_first() =~= t.skip(k + 1));
        }
        let cell = if hi - lo == 1 && chars[lo] == '_' {
            assert(w =~= seq!['_']);
            Ok(Item::Empty)
        } else {
            assert(w != seq!['_']);
            parse_token(&chars, lo, hi)
        };
        match cell {
            Err(e) => {
                return Err(e);
            },
            Ok(it) => {
                proof {
                    match read_row(t.skip(k + 1)) {
                        Err(e) => {},
                        Ok(rest) => {
                            assert(items@ + (seq![it] + rest) =~= items@.push(it) + rest);
                        },
                    }
                }
                items.push(it);
                k = k + 1;
            },
        }
    }
    assert(t.skip(k as int) =~= Seq::<Seq<char>>::empty());
    assert(items@ + Seq::<Item>::empty() =~= items@);
    Ok(items)
}

/// Reads one line of a board file into row `row`. Fails with
/// `NonSquareBoardError` when the line does not hold one token per
/// column, or with the error of its first bad token; on failure the
/// board is left as it was.
pub fn process_line(line: &str, row: u32, game: &mut Game) -> (r: Result<(), BombermanError>)
    requires
        old(game).wf(),
        row < old(game).dim(),
    ensures
        final(game).wf(),
        final(game).dim() == old(game).dim(),
        words(line@).len() != old(game).dim() ==> r == Err::<(), BombermanError>(
            BombermanError::NonSquareBoardError,
        ),
        words(line@).len() == old(game).dim() ==> match read_row(words(line@)) {
            Err(e) => r == Err::<(), BombermanError>(e),
            Ok(items) => r is Ok && forall|x: int, y: int|
                #![trigger final(game).cell(x, y)]
                final(game).cell(x, y) == if x == row && 0 <= y < final(game).dim() {
                    items[y]
                } else {
                    old(game).cell(x, y)
                },
        },
        r is Err ==> *final(game) == *old(game),
{
    let items = match read_row_items(line) {
        Ok(items) => items,
        Err(e) => {
            if items_count_differs(line, game.map_dimension) {
                return Err(BombermanError::NonSquareBoardError);
            }
            return Err(e);
        },
    };
    proof {
        lemma_read_row_len(words(line@));
    }
    if items.len() != game.map_dimension as usize {
        return Err(BombermanError::NonSquareBoardError);
    }
    let n = game.map_dimension;
    let mut y: u32 = 0;
    while y < n
        invariant
            game.wf(),
            game.map_dimension == n,
            n == old(game).dim(),
            row < n,
            items@.len() == n,
            y <= n,
            forall|a: int, b: int|
                #![trigger game.cell(a, b)]
                game.cell(a, b) == if a == row && 0 <= b < y {
                    items@[b]
                } else {
                    old(game).cell(a, b)
                },
        decreases n - y,
    {
        let i = index_of(row, y, n, game.map.len());
        let ghost before = *game;
        game.map.set(i, items[y as usize]);
        proof {
            assert forall|a: int, b: int|
                #![trigger game.cell(a, b)]
                game.cell(a, b) == if a == row && 0 <= b < y + 1 {
                    items@[b]
                } else {
                    old(game).cell(a, b)
                } by {
                if 0 <= a < n && 0 <= b < n {
                    lemma_cell_index(a, b, n as int);
                    if cell_index(a, b, n as int) == i {
                        lemma_cell_index_injective(a, b, row as int, y as int, n as int);
                    }
                    assert(before.cell(a, b) == game.cell(a, b) || (a == row && b == y));
                }
            }
        }
        y = y + 1;
    }
    Ok(())
}

impl Game {
    /// An `n`-by-`n` board with every cell empty.
    fn empty_board(n: u32) -> (r: Game)
        requires
            n * n <= usize::MAX,
        ensures
            r.wf(),
            r.dim() == n,
            forall|x: int, y: int| r.cell(x, y) == Item::Empty,
    {
        let total: usize = (n as usize) * (n as usize);
        let mut map: Vec<Item> = Vec::new();
        while map.len() < total
            invariant
                map@.len() <= total,
                total == n * n,
                forall|i: int| 0 <= i < map@.len() ==> map@[i] == Item::Empty,
            decreases total - map@.len(),
        {
            map.push(Item::Empty);
        }
        let r = Game { map, map_dimension: n };
        assert forall|x: int, y: int| r.cell(x, y) == Item::Empty by {
            if 0 <= x < n && 0 <= y < n {
                lemma_cell_index(x, y, n as int);
            }
        }
        r
    }

    /// Builds the board from the lines of a board file: `n` lines of `n`
    /// tokens each, `_` for an empty cell. Fails with `NonSquareBoardError`
    /// when the lines do not form a square, or else with the error of the
    /// first bad token, row by row.
    pub fn new(lines: &Vec<String>) -> (r: Result<Game, BombermanError>)
        requires
            lines@.len() * lines@.len() <= usize::MAX,
        ensures
            !is_square(line_texts(lines@)) ==> r == Err::<Game, BombermanError>(
                BombermanError::NonSquareBoardError,
            ),
            is_square(line_texts(lines@)) ==> match read_board(line_texts(lines@)) {
                Err(e) => r == Err::<Game, BombermanError>(e),
                Ok(rows) => r is Ok && {
                    let g = r->Ok_0;
                    &&& g.wf()
                    &&& g.dim() == lines@.len()
                    &&& forall|x: int, y: int|
                        0 <= x < g.dim() && 0 <= y < g.dim() ==> #[trigger] g.cell(x, y)
                            == rows[x][y]
                },
            },
    {
        let ghost texts = line_texts(lines@);
        let n = lines.len();
        if n == 0 {
            return Err(BombermanError::NonSquareBoardError);
        }
        assert(n < 0x1_0000_0000) by (nonlinear_arith)
            requires
                n * n <= usize::MAX,
                usize::MAX <= u64::MAX,
        ;
        let mut i: usize = 0;
        while i < n
            invariant
                n == lines@.len(),
                n < 0x1_0000_0000,
                texts == line_texts(lines@),
                i <= n,
                forall|j: int| 0 <= j < i ==> (#[trigger] words(texts[j])).len() == n,
            decreases n - i,
        {
            if items_count_differs(lines[i].as_str(), n as u32) {
                assert(texts[i as int] == lines@[i as int]@);
                return Err(BombermanError::NonSquareBoardError);
            }
            i = i + 1;
        }
        let mut game = Game::empty_board(n as u32);
        let ghost mut rows: Seq<Seq<Item>> = Seq::empty();
        proof {
            assert(texts.skip(0) =~= texts);
            match read_board(texts) {
                Err(e) => {},
                Ok(rest) => {
                    assert(rows + rest =~= rest);
                },
            }
        }
        let mut x: usize = 0;
        while x < n
            invariant
                n == lines@.len(),
                n < 0x1_0000_0000,
                texts == line_texts(lines@),
                is_square(texts),
                game.wf(),
                game.dim() == n,
                x <= n,
                rows.len() == x,
                forall|a: int| 0 <= a < x ==> (#[trigger] rows[a]).len() == n,
                read_board(texts) == prepend_rows(rows, read_board(texts.skip(x as int))),
                forall|a: int, b: int|
                    #![trigger game.cell(a, b)]
                    game.cell(a, b) == if 0 <= a < x && 0 <= b < n {
                        rows[a][b]
                    } else {
                        Item::Empty
                    },
            decreases n - x,
        {
            let ghost line = texts[x as int];
            proof {
                assert(words(texts[x as int]).len() == n);
                assert(texts.skip(x as int)[0] == line);
                assert(texts.skip(x as int).drop_first() =~= texts.skip(x + 1));
                lemma_read_row_len(words(line));
            }
            match process_line(lines[x].as_str(), x as u32, &mut game) {
                Err(e) => {
                    return Err(e);
                },
                Ok(()) => {},
            }
            proof {
                let items = read_row(words(line))->Ok_0;
                match read_board(texts.skip(x + 1)) {
                    Err(e) => {},
                    Ok(rest) => {
                        assert(rows + (seq![items] + rest) =~= rows.push(items) + rest);
                    },
                }
                rows = rows.push(items);
            }
            x = x + 1;
        }
        proof {
            assert(texts.skip(x as int) =~= Seq::<Seq<char>>::empty());
            assert(rows + Seq::<Seq<Item>>::empty() =~= rows);
        }
        Ok(game)
    }
}

/// The first `k` cells of row `x`, each token followed by a space.
pub open spec fn row_text(g: Game, x: int, k: nat) -> Seq<char>
    decreases k,
{
    if k == 0 {
        Seq::empty()
    } else {
        row_text(g, x, (k - 1) as nat) + item_text(g.cell(x, k - 1)) + seq![' ']
    }
}

/// The first `m` rows of the board, each ended by a newline.
pub open spec fn rows_text(g: Game, m: nat) -> Seq<char>
    decreases m,
{
    if m == 0 {
        Seq::empty()
    } else {
        rows_text(g, (m - 1) as nat) + row_text(g, m - 1, g.dim()) + seq!['\n']
    }
}

impl Game {
    /// The board in the file format it was read from: one line per row,
    /// each cell's canonical token followed by a space.
    pub fn board_text(&self) -> (r: String)
        requires
            self.wf(),
        ensures
            r@ == rows_text(*self, self.dim()),
    {
        let n = self.map_dimension;
        let mut out = String::new();
        let mut x: u32 = 0;
        while x < n
            invariant
                self.wf(),
                n == self.dim(),
                x <= n,
                out@ == rows_text(*self, x as nat),
            decreases n - x,
        {
            let mut y: u32 = 0;
            let ghost before = out@;
            while y < n
                invariant
                    self.wf(),
                    n == self.dim(),
                    x < n,
                    y <= n,
                    out@ == before + row_text(*self, x as int, y as nat),
                decreases n - y,
            {
                let item = self.get(&Coordinate::new(x, y, n));
                let token = item.to_string();
                out.append(token.as_str());
                out.append(" ");
                proof {
                    reveal_strlit(" ");
                }
                assert(row_text(*self, x as int, (y + 1) as nat) == row_text(
                    *self,
                    x as int,
                    y as nat,
                ) + item_text(self.cell(x as int, y as int)) + seq![' ']);
                assert(out@ =~= before + row_text(*self, x as int, (y + 1) as nat));
                y = y + 1;
            }
            out.append("\n");
            proof {
                reveal_strlit("\n");
            }
            assert(rows_text(*self, (x + 1) as nat) == rows_text(*self, x as nat) + row_text(
                *self,
                x as int,
                self.dim(),
            ) + seq!['\n']);
            assert(out@ =~= rows_text(*self, (x + 1) as nat));
            x = x + 1;
        }
        out
    }
}

/// Whether `line` holds a number of tokens other than `n`.
fn items_count_differs(line: &str, n: u32) -> (r: bool)
    ensures
        r == (words(line@).len() != n),
{
    let chars = chars_of(line);
    let bounds = word_bounds(&chars);
    bounds.len() != n as usize
}

pub proof fn lemma_read_row_len(t: Seq<Seq<char>>)
    ensures
        read_row(t) matches Ok(items) ==> items.len() == t.len(),
    decreases t.len(),
{
    if t.len() > 0 {
        lemma_read_row_len(t.drop_first());
    }
}

pub proof fn lemma_wave_len(g: &Game, kind: BombKind, c: Coordinate, d: Direction, budget: nat)
    ensures
        g.wave(kind, c, d, budget).len() <= budget,
    decreases budget,
{
    if budget > 0 {
        match effect_spec(kind, g.cell(c.x as int, c.y as int), d) {
            None => {},
            Some(n) => match c.step_spec(n) {
                None => {},
                Some(next) => lemma_wave_len(g, kind, next, n, (budget - 1) as nat),
            },
        }
    }
}

/// Adds to `affected` one hit for every cell that the wave from `start`
/// in direction `d` visits within `budget` cells.
fn expansive_wave(
    game: &Game,
    kind: BombKind,
    affected: &mut DamageMap,
    start: Coordinate,
    d: Direction,
    budget: u64,
)
    requires
        game.wf(),
        old(affected).wf(),
        old(affected).dim() == game.dim(),
        game.on_board(start),
        forall|x: int, y: int| old(affected).damage(x, y) + budget <= u64::MAX,
    ensures
        final(affected).wf(),
        final(affected).dim() == game.dim(),
        forall|x: int, y: int|
            #![trigger final(affected).damage(x, y)]
            final(affected).damage(x, y) == old(affected).damage(x, y) + visits(
                game.wave(kind, start, d, budget as nat),
                x,
                y,
            ),
{
    let ghost whole = game.wave(kind, start, d, budget as nat);
    let ghost mut prefix: Seq<Coordinate> = Seq::empty();
    let mut c = start;
    let mut dir = d;
    let mut b = budget;
    assert(whole =~= prefix + game.wave(kind, c, dir, b as nat));
    loop
        invariant
            game.wf(),
            affected.wf(),
            affected.dim() == game.dim(),
            game.on_board(c),
            whole == game.wave(kind, start, d, budget as nat),
            whole =~= prefix + game.wave(kind, c, dir, b as nat),
            prefix.len() + b <= budget,
            forall|x: int, y: int| old(affected).damage(x, y) + budget <= u64::MAX,
            forall|x: int, y: int|
                #![trigger affected.damage(x, y)]
                affected.damage(x, y) == old(affected).damage(x, y) + visits(prefix, x, y),
        decreases b,
    {
        if b == 0 {
            assert(whole =~= prefix);
            return ;
        }
        proof {
            lemma_visits_len(prefix, c.x as int, c.y as int);
        }
        affected.hit(&c);
        let ghost rest = game.wave(kind, c, dir, b as nat).drop_first();
        proof {
            assert forall|x: int, y: int|
                #![trigger affected.damage(x, y)]
                affected.damage(x, y) == old(affected).damage(x, y) + visits(
                    prefix.push(c),
                    x,
                    y,
                ) by {
                lemma_visits_push(prefix, c, x, y);
            }
            assert(whole =~= prefix.push(c) + rest);
            prefix = prefix.push(c);
        }
        let item = game.get(&c);
        match bomb_effect(kind, &item, dir) {
            None => {
                assert(rest =~= Seq::<Coordinate>::empty());
                assert(whole =~= prefix);
                return ;
            },
            Some(n) => {
                match c.step(n) {
                    None => {
                        assert(rest =~= Seq::<Coordinate>::empty());
                        assert(whole =~= prefix);
                        return ;
                    },
                    Some(next) => {
                        proof {
                            crate::coordinate::lemma_step_in_bounds(c, n);
                        }
                        assert(rest == game.wave(kind, next, n, (b - 1) as nat));
                        c = next;
                        dir = n;
                        b = b - 1;
                    },
                }
            },
        }
    }
}

} // verus!
