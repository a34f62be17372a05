//! Board coordinates, cell indices, and movement directions.

use vstd::prelude::*;

verus! {

/// Number of tiles along one side of the square board.
pub const MAP_SIDE_LENGTH: usize = 16;

/// Total number of tiles on the board.
pub const MAP_SIZE: usize = MAP_SIDE_LENGTH * MAP_SIDE_LENGTH;

/// One tile of the board, addressed by column `x` and row `y`.
///
/// A position is on the board when both components lie in
/// `[0, MAP_SIDE_LENGTH)`. Every on-board position corresponds bijectively
/// to the cell index `y * MAP_SIDE_LENGTH + x`, which is how the grid map
/// and the occupancy structures address tiles.
#[derive(Clone, Copy, PartialEq, Eq, Structural, Debug)]
pub struct Position {
    pub x: i8,
    pub y: i8,
}

impl Position {
    /// Whether both components lie inside the board.
    pub open spec fn on_board(self) -> bool {
        &&& 0 <= self.x < MAP_SIDE_LENGTH
        &&& 0 <= self.y < MAP_SIDE_LENGTH
    }

    /// The cell index of this position in the row-major grid.
    pub open spec fn idx(self) -> int {
        self.y * (MAP_SIDE_LENGTH as int) + self.x
    }

    /// Recovers the position addressed by a cell index.
    pub fn from_hash(hash: usize) -> (p: Self)
        requires
            hash < MAP_SIZE,
        ensures
            p.on_board(),
            p.idx() == hash,
    {
        proof {
            vstd::arithmetic::div_mod::lemma_fundamental_div_mod(hash as int, MAP_SIDE_LENGTH as int);
            vstd::arithmetic::div_mod::lemma_mod_bound(hash as int, MAP_SIDE_LENGTH as int);
        }
        Self {
            x: (hash % MAP_SIDE_LENGTH) as i8,
            y: (hash / MAP_SIDE_LENGTH) as i8,
        }
    }

    /// The cell index of this position.
    pub fn as_hash(&self) -> (h: usize)
        requires
            self.on_board(),
        ensures
            h == self.idx(),
            h < MAP_SIZE,
    {
        self.y as usize * MAP_SIDE_LENGTH + self.x as usize
    }
}

/// Ties a cell index back to the components of the position it addresses.
pub proof fn lemma_idx_decompose(p: Position)
    requires
        p.on_board(),
    ensures
        0 <= p.idx() < MAP_SIZE,
        p.idx() % (MAP_SIDE_LENGTH as int) == p.x,
        p.idx() / (MAP_SIDE_LENGTH as int) == p.y,
{
    vstd::arithmetic::div_mod::lemma_fundamental_div_mod_converse(
        p.idx(),
        MAP_SIDE_LENGTH as int,
        p.y as int,
        p.x as int,
    );
}

/// Cell indices address on-board positions injectively.
pub proof fn lemma_idx_injective(p: Position, q: Position)
    requires
        p.on_board(),
        q.on_board(),
        p.idx() == q.idx(),
    ensures
        p == q,
{
    lemma_idx_decompose(p);
    lemma_idx_decompose(q);
}

/// A movement direction, one grid step along one axis. Rows grow downward,
/// so `Up` decreases `y`.
#[derive(Clone, Copy, PartialEq, Eq, Structural, Debug)]
pub enum Direction {
    Up,
    Down,
    Left,
    Right,
}

impl Direction {
    /// Horizontal displacement of one step in this direction.
    pub open spec fn dx(self) -> int {
        match self {
            Direction::Left => -1,
            Direction::Right => 1,
            _ => 0,
        }
    }

    /// Vertical displacement of one step in this direction.
    pub open spec fn dy(self) -> int {
        match self {
            Direction::Up => -1,
            Direction::Down => 1,
            _ => 0,
        }
    }

    /// The displacement pair of one step in this direction.
    pub fn offsets(&self) -> (d: (i8, i8))
        ensures
            d.0 == self.dx(),
            d.1 == self.dy(),
    {
        match self {
            Direction::Up => (0, -1),
            Direction::Down => (0, 1),
            Direction::Left => (-1, 0),
            Direction::Right => (1, 0),
        }
    }
}

/// Whether two cell indices address tiles exactly one grid step apart on
/// one axis.
pub open spec fn one_step_apart(a: int, b: int) -> bool {
    let ax = a % (MAP_SIDE_LENGTH as int);
    let ay = a / (MAP_SIDE_LENGTH as int);
    let bx = b % (MAP_SIDE_LENGTH as int);
    let by = b / (MAP_SIDE_LENGTH as int);
    ||| (ax == bx && (ay == by + 1 || by == ay + 1))
    ||| (ay == by && (ax == bx + 1 || bx == ax + 1))
}

/// A step from an on-board position to an adjacent on-board position lands
/// one grid step away.
pub proof fn lemma_step_adjacent(p: Position, q: Position, d: Direction)
    requires
        p.on_board(),
        q.on_board(),
        q.x == p.x + d.dx(),
        q.y == p.y + d.dy(),
    ensures
        one_step_apart(p.idx(), q.idx()),
{
    lemma_idx_decompose(p);
    lemma_idx_decompose(q);
}

} // verus!
