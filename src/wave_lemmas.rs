use vstd::prelude::*;

use crate::coordinate::{lemma_step_in_bounds, Coordinate, Direction};
use crate::game::{effect_spec, visits, BombKind, Game};
use crate::item::Item;

verus! {

/// The cell `k` steps from `c` in direction `d`, if the grid reaches that far.
pub open spec fn ray(c: Coordinate, d: Direction, k: nat) -> Option<Coordinate>
    decreases k,
{
    if k == 0 {
        Some(c)
    } else {
        match c.step_spec(d) {
            None => None,
            Some(n) => ray(n, d, (k - 1) as nat),
        }
    }
}

/// The item at a position of the board.
pub open spec fn item_at(g: &Game, c: Coordinate) -> Item {
    g.cell(c.x as int, c.y as int)
}

/// Where the cell `k` steps away lies: `k` rows or columns off `c`.
pub proof fn lemma_ray_offset(c: Coordinate, d: Direction, k: nat)
    ensures
        ray(c, d, k) matches Some(p) ==> p.max_value == c.max_value && match d {
            Direction::Up => p.x == c.x - k && p.y == c.y,
            Direction::Down => p.x == c.x + k && p.y == c.y,
            Direction::Left => p.x == c.x && p.y == c.y - k,
            Direction::Right => p.x == c.x && p.y == c.y + k,
        },
    decreases k,
{
    if k > 0 {
        match c.step_spec(d) {
            None => {},
            Some(n) => lemma_ray_offset(n, d, (k - 1) as nat),
        }
    }
}

pub proof fn lemma_visits_positive(s: Seq<Coordinate>, i: int)
    requires
        0 <= i < s.len(),
    ensures
        visits(s, s[i].x as int, s[i].y as int) >= 1,
    decreases s.len(),
{
    if i < s.len() - 1 {
        lemma_visits_positive(s.drop_last(), i);
    }
}

pub proof fn lemma_visits_absent(s: Seq<Coordinate>, x: int, y: int)
    requires
        forall|i: int| 0 <= i < s.len() ==> !(s[i].x == x && s[i].y == y),
    ensures
        visits(s, x, y) == 0,
    decreases s.len(),
{
    if s.len() > 0 {
        lemma_visits_absent(s.drop_last(), x, y);
    }
}

/// Every cell that a wave from a board position visits is a board position.
pub proof fn lemma_wave_on_board(
    g: &Game,
    kind: BombKind,
    c: Coordinate,
    d: Direction,
    budget: nat,
)
    requires
        g.on_board(c),
    ensures
        forall|i: int|
            0 <= i < g.wave(kind, c, d, budget).len() ==> g.on_board(
                #[trigger] g.wave(kind, c, d, budget)[i],
            ),
    decreases budget,
{
    if budget > 0 {
        match effect_spec(kind, item_at(g, c), d) {
            None => {},
            Some(n) => {
                lemma_step_in_bounds(c, n);
                match c.step_spec(n) {
                    None => {},
                    Some(next) => {
                        lemma_wave_on_board(g, kind, next, n, (budget - 1) as nat);
                        let w = g.wave(kind, c, d, budget);
                        assert forall|i: int| 0 <= i < w.len() implies g.on_board(
                            #[trigger] w[i],
                        ) by {
                            if i > 0 {
                                assert(w[i] == g.wave(kind, next, n, (budget - 1) as nat)[i - 1]);
                            }
                        }
                    },
                }
            },
        }
    }
}

/// A wave that meets only cells it passes straight through follows the
/// line: its `j`-th cell is the cell `j` steps away, up to the `m`-th. If the
/// `m`-th cell stops it, or passes it on straight towards the grid's edge,
/// the wave ends there.
pub proof fn lemma_wave_straight(
    g: &Game,
    kind: BombKind,
    c: Coordinate,
    d: Direction,
    budget: nat,
    m: nat,
)
    requires
        forall|j: nat|
            j < m ==> (#[trigger] ray(c, d, j)) is Some && effect_spec(
                kind,
                item_at(g, ray(c, d, j)->Some_0),
                d,
            ) == Some(d),
        ray(c, d, m) is Some,
        budget > m,
    ensures
        g.wave(kind, c, d, budget).len() > m,
        forall|j: nat| j <= m ==> g.wave(kind, c, d, budget)[j as int] == (#[trigger] ray(
            c,
            d,
            j,
        ))->Some_0,
        ({
            let q = ray(c, d, m)->Some_0;
            effect_spec(kind, item_at(g, q), d) is None || (effect_spec(kind, item_at(g, q), d)
                == Some(d) && q.step_spec(d) is None)
        }) ==> g.wave(kind, c, d, budget).len() == m + 1,
    decreases m,
{
    let w = g.wave(kind, c, d, budget);
    if m > 0 {
        assert(ray(c, d, 0) is Some);
        let n = c.step_spec(d)->Some_0;
        assert(c.step_spec(d) is Some);
        assert forall|j: nat| j < (m - 1) as nat implies (#[trigger] ray(n, d, j)) is Some
            && effect_spec(kind, item_at(g, ray(n, d, j)->Some_0), d) == Some(d) by {
            assert(ray(c, d, j + 1) == ray(n, d, j));
        }
        assert(ray(c, d, m) == ray(n, d, (m - 1) as nat));
        lemma_wave_straight(g, kind, n, d, (budget - 1) as nat, (m - 1) as nat);
        let rest = g.wave(kind, n, d, (budget - 1) as nat);
        assert(w == seq![c] + rest);
        assert forall|j: nat| j <= m implies w[j as int] == (#[trigger] ray(c, d, j))->Some_0 by {
            if j > 0 {
                assert(ray(c, d, j) == ray(n, d, (j - 1) as nat));
                assert(w[j as int] == rest[j - 1]);
            }
        }
    }
}

/// Damage counts visits. Every cell that a detonation hits lies on the
/// board, and the hits it takes are the number of times the four waves
/// passed through it, so a hit cell has at least one.
pub proof fn lemma_blast_damage_counts_visits(
    g: &Game,
    kind: BombKind,
    bomb: Coordinate,
    range: nat,
)
    requires
        g.on_board(bomb),
    ensures
        forall|x: int, y: int|
            #![trigger g.blast_damage(kind, bomb, range, x, y)]
            g.blast_damage(kind, bomb, range, x, y) >= 1 ==> 0 <= x < g.dim() && 0 <= y < g.dim(),
        forall|x: int, y: int|
            #![trigger g.blast_damage(kind, bomb, range, x, y)]
            g.blast_damage(kind, bomb, range, x, y) == visits(
                g.wave(kind, bomb, Direction::Right, range + 1),
                x,
                y,
            ) + visits(g.wave(kind, bomb, Direction::Left, range + 1), x, y) + visits(
                g.wave(kind, bomb, Direction::Up, range + 1),
                x,
                y,
            ) + visits(g.wave(kind, bomb, Direction::Down, range + 1), x, y),
        g.blast_damage(kind, bomb, range, bomb.x as int, bomb.y as int) >= 1,
{
    assert forall|x: int, y: int|
        #![trigger g.blast_damage(kind, bomb, range, x, y)]
        g.blast_damage(kind, bomb, range, x, y) >= 1 implies 0 <= x < g.dim() && 0 <= y
        < g.dim() by {
        if !(0 <= x < g.dim() && 0 <= y < g.dim()) {
            lemma_off_board_unvisited(g, kind, bomb, Direction::Right, range + 1, x, y);
            lemma_off_board_unvisited(g, kind, bomb, Direction::Left, range + 1, x, y);
            lemma_off_board_unvisited(g, kind, bomb, Direction::Up, range + 1, x, y);
            lemma_off_board_unvisited(g, kind, bomb, Direction::Down, range + 1, x, y);
        }
    }
    let w = g.wave(kind, bomb, Direction::Right, range + 1);
    assert(w[0] == bomb);
    lemma_visits_positive(w, 0);
}

proof fn lemma_off_board_unvisited(
    g: &Game,
    kind: BombKind,
    c: Coordinate,
    d: Direction,
    budget: nat,
    x: int,
    y: int,
)
    requires
        g.on_board(c),
        !(0 <= x < g.dim() && 0 <= y < g.dim()),
    ensures
        visits(g.wave(kind, c, d, budget), x, y) == 0,
{
    lemma_wave_on_board(g, kind, c, d, budget);
    let w = g.wave(kind, c, d, budget);
    assert forall|i: int| 0 <= i < w.len() implies !(w[i].x == x && w[i].y == y) by {
        assert(g.on_board(w[i]));
    }
    lemma_visits_absent(w, x, y);
}

/// Obstruction. Say a bomb sits at `c`, a rock `k` cells away in direction
/// `d`, and every other cell up to `m > k` cells away lets a normal wave
/// pass straight on. The normal bomb's wave sent that way ends at the rock
/// and never reaches the cell `m` away; a transfer bomb's wave with range at
/// least `m` passes the rock and hits that cell.
pub proof fn lemma_rock_obstruction(
    g: &Game,
    c: Coordinate,
    d: Direction,
    range: nat,
    k: nat,
    m: nat,
)
    requires
        g.on_board(c),
        item_at(g, c) is NormalBomb || item_at(g, c) is TransferBomb,
        0 < k < m,
        ray(c, d, m) is Some,
        item_at(g, ray(c, d, k)->Some_0) == Item::Rock,
        forall|j: nat|
            0 < j < m && j != k ==> effect_spec(
                BombKind::Normal,
                item_at(g, (#[trigger] ray(c, d, j))->Some_0),
                d,
            ) == Some(d),
    ensures
        ({
            let far = ray(c, d, m)->Some_0;
            visits(g.wave(BombKind::Normal, c, d, range + 1), far.x as int, far.y as int) == 0
        }),
        range >= m ==> {
            let far = ray(c, d, m)->Some_0;
            visits(g.wave(BombKind::Transfer, c, d, range + 1), far.x as int, far.y as int) >= 1
        },
{
    let far = ray(c, d, m)->Some_0;
    lemma_ray_some_prefix(c, d, m);
    lemma_ray_offset(c, d, m);
    // The normal wave.
    let w = g.wave(BombKind::Normal, c, d, range + 1);
    if range + 1 > k {
        lemma_wave_straight(g, BombKind::Normal, c, d, range + 1, k);
        assert forall|i: int| 0 <= i < w.len() implies !(w[i].x == far.x && w[i].y == far.y) by {
            let j = i as nat;
            assert(w[i] == ray(c, d, j)->Some_0);
            lemma_ray_offset(c, d, j);
        }
    } else {
        lemma_wave_straight(g, BombKind::Normal, c, d, range + 1, range);
        crate::game::lemma_wave_len(g, BombKind::Normal, c, d, range + 1);
        assert forall|i: int| 0 <= i < w.len() implies !(w[i].x == far.x && w[i].y == far.y) by {
            let j = i as nat;
            assert(w[i] == ray(c, d, j)->Some_0);
            lemma_ray_offset(c, d, j);
        }
    }
    lemma_visits_absent(w, far.x as int, far.y as int);
    // The transfer wave.
    if range >= m {
        assert forall|j: nat| j < m implies (#[trigger] ray(c, d, j)) is Some && effect_spec(
            BombKind::Transfer,
            item_at(g, ray(c, d, j)->Some_0),
            d,
        ) == Some(d) by {
            if j > 0 && j != k {
                assert(effect_spec(BombKind::Normal, item_at(g, ray(c, d, j)->Some_0), d) == Some(
                    d,
                ));
            }
        }
        lemma_wave_straight(g, BombKind::Transfer, c, d, range + 1, m);
        let t = g.wave(BombKind::Transfer, c, d, range + 1);
        assert(t[m as int] == far);
        lemma_visits_positive(t, m as int);
    }
}

/// Deflection. When the cell right of a bomb holds a deflection pointing
/// up, the bomb's rightward wave hits the bomb's cell and the deflection,
/// and then carries on upwards from the deflection, not rightwards.
pub proof fn lemma_deflection_turns_wave(g: &Game, kind: BombKind, c: Coordinate, range: nat)
    requires
        item_at(g, c) is NormalBomb || item_at(g, c) is TransferBomb,
        c.step_spec(Direction::Right) is Some,
        item_at(g, c.step_spec(Direction::Right)->Some_0) == Item::Deflection(Direction::Up),
        range >= 1,
    ensures
        ({
            let r = c.step_spec(Direction::Right)->Some_0;
            g.wave(kind, c, Direction::Right, range + 1) == seq![c, r] + match r.step_spec(
                Direction::Up,
            ) {
                None => Seq::<Coordinate>::empty(),
                Some(u) => g.wave(kind, u, Direction::Up, (range - 1) as nat),
            }
        }),
{
    let r = c.step_spec(Direction::Right)->Some_0;
    let rest = match r.step_spec(Direction::Up) {
        None => Seq::<Coordinate>::empty(),
        Some(u) => g.wave(kind, u, Direction::Up, (range - 1) as nat),
    };
    assert(g.wave(kind, r, Direction::Right, range) == seq![r] + rest);
    assert(g.wave(kind, c, Direction::Right, range + 1) == seq![c] + g.wave(
        kind,
        r,
        Direction::Right,
        range,
    ));
    assert(seq![c] + (seq![r] + rest) =~= seq![c, r] + rest);
}

/// Boundary. When a bomb's range reaches at least to the edge of the grid
/// in direction `d`, and every cell from the bomb to that edge lets the
/// wave pass straight on, the wave visits exactly those cells, once each,
/// and stops at the edge cell.
pub proof fn lemma_wave_stops_at_edge(
    g: &Game,
    kind: BombKind,
    c: Coordinate,
    d: Direction,
    range: nat,
    k: nat,
)
    requires
        ray(c, d, k) is Some,
        ray(c, d, k)->Some_0.step_spec(d) is None,
        range >= k,
        forall|j: nat|
            j <= k ==> effect_spec(kind, item_at(g, (#[trigger] ray(c, d, j))->Some_0), d) == Some(
                d,
            ),
    ensures
        g.wave(kind, c, d, range + 1).len() == k + 1,
        forall|j: nat| j <= k ==> g.wave(kind, c, d, range + 1)[j as int] == (#[trigger] ray(
            c,
            d,
            j,
        ))->Some_0,
{
    lemma_ray_some_prefix(c, d, k);
    lemma_wave_straight(g, kind, c, d, range + 1, k);
}

pub proof fn lemma_ray_some_prefix(c: Coordinate, d: Direction, m: nat)
    requires
        ray(c, d, m) is Some,
    ensures
        forall|j: nat| j <= m ==> (#[trigger] ray(c, d, j)) is Some,
    decreases m,
{
    if m > 0 {
        let n = c.step_spec(d)->Some_0;
        lemma_ray_some_prefix(n, d, (m - 1) as nat);
        assert forall|j: nat| j <= m implies (#[trigger] ray(c, d, j)) is Some by {
            if j > 0 {
                assert(ray(c, d, j) == ray(n, d, (j - 1) as nat));
            }
        }
    }
}

} // verus!
