//! The game state and the per-tick transition.

use vstd::prelude::*;

verus! {

use crate::free::FreeSet;
use crate::pos::{lemma_idx_decompose, lemma_step_adjacent, one_step_apart};
use crate::pos::{Direction, Position, MAP_SIDE_LENGTH, MAP_SIZE};
use crate::ring::OccupancyRing;

/// What one tile of the grid holds.
#[derive(Clone, Copy, PartialEq, Eq, Structural, Debug)]
pub enum Cell {
    Empty,
    Food,
    Snake,
}

/// The phase reported by a tick: waiting for the first direction, still
/// going, or terminally over.
#[derive(Clone, Copy, PartialEq, Eq, Structural, Debug)]
pub enum Phase {
    Ready,
    Running,
    Over,
}

/// The whole game: the grid map for constant-time collision lookup, the
/// snake body in order, the free tiles for food placement, the remembered
/// direction, and the move counter.
pub struct GameState {
    direction: Option<Direction>,
    map: Vec<Cell>,
    ring: OccupancyRing,
    free: FreeSet,
    moves: usize,
}

/// The grid holding only empty tiles.
pub open spec fn empty_grid() -> Seq<Cell> {
    Seq::new(MAP_SIZE as nat, |i: int| Cell::Empty)
}

/// The cell index of the board's center tile, where the snake is seeded.
pub open spec fn center_idx() -> int {
    (MAP_SIDE_LENGTH as int / 2) * (MAP_SIDE_LENGTH as int) + MAP_SIDE_LENGTH as int / 2
}

/// The direction a tick acts on: the input if one was given, else the
/// remembered one. A non-`None` input always wins, reversal included.
pub open spec fn effective_dir(pre: GameState, input: Option<Direction>) -> Option<Direction> {
    if input is Some {
        input
    } else {
        pre.dir()
    }
}

/// Cell index of the current head tile.
pub open spec fn head_idx(g: GameState) -> int {
    g.body().last()
}

/// Column of the tile one step from the head in direction `d`.
pub open spec fn target_x(g: GameState, d: Direction) -> int {
    head_idx(g) % (MAP_SIDE_LENGTH as int) + d.dx()
}

/// Row of the tile one step from the head in direction `d`.
pub open spec fn target_y(g: GameState, d: Direction) -> int {
    head_idx(g) / (MAP_SIDE_LENGTH as int) + d.dy()
}

/// Whether the tile one step from the head stays on the board; there is no
/// wraparound.
pub open spec fn target_on_board(g: GameState, d: Direction) -> bool {
    &&& 0 <= target_x(g, d) < MAP_SIDE_LENGTH
    &&& 0 <= target_y(g, d) < MAP_SIDE_LENGTH
}

/// Cell index of the tile one step from the head in direction `d`.
pub open spec fn target_idx(g: GameState, d: Direction) -> int {
    target_y(g, d) * (MAP_SIDE_LENGTH as int) + target_x(g, d)
}

/// Grid, body, free set and move counter all kept as they were; only the
/// remembered direction may differ.
pub open spec fn board_unchanged(pre: GameState, post: GameState) -> bool {
    &&& post.grid_seq() == pre.grid_seq()
    &&& post.body() == pre.body()
    &&& post.move_count() == pre.move_count()
    &&& post.free_count() == pre.free_count()
    &&& forall|h: int| post.cell_free(h) == pre.cell_free(h)
}

/// The move counter after a counted tick; it sticks at the top of its
/// range instead of overflowing.
pub open spec fn bumped(m: int) -> int {
    if m < usize::MAX {
        m + 1
    } else {
        m
    }
}

/// The full transition relation of one tick, from the state before to the
/// state after and the reported phase.
///
/// The remembered direction always becomes the effective one. With no
/// effective direction the tick is an idle `Ready`. Otherwise the step is
/// decided by the target tile: off the board or snake-marked ends the game
/// with nothing touched; an empty tile moves the snake (tail tile freed,
/// target occupied); a food tile grows the snake by one and places a new
/// food tile on some previously empty tile other than the new head —
/// unless the grown snake would fill the board, which ends the game with
/// nothing touched.
pub open spec fn tick_spec(
    pre: GameState,
    input: Option<Direction>,
    post: GameState,
    phase: Phase,
) -> bool {
    &&& post.dir() == effective_dir(pre, input)
    &&& match effective_dir(pre, input) {
        None => phase is Ready && board_unchanged(pre, post),
        Some(d) => {
            if !target_on_board(pre, d) {
                phase is Over && board_unchanged(pre, post)
            } else {
                let nh = target_idx(pre, d);
                match pre.grid_seq()[nh] {
                    Cell::Snake => phase is Over && board_unchanged(pre, post),
                    Cell::Empty => {
                        &&& phase is Running
                        &&& post.body() == pre.body().drop_first().push(nh)
                        &&& post.grid_seq() == pre.grid_seq().update(
                            pre.body()[0],
                            Cell::Empty,
                        ).update(nh, Cell::Snake)
                        &&& post.move_count() == bumped(pre.move_count())
                    },
                    Cell::Food => {
                        if pre.body().len() >= MAP_SIZE - 1 {
                            phase is Over && board_unchanged(pre, post)
                        } else {
                            &&& phase is Running
                            &&& post.body() == pre.body().push(nh)
                            &&& post.move_count() == bumped(pre.move_count())
                            &&& exists|f: int|
                                0 <= f < MAP_SIZE && f != nh && pre.grid_seq()[f] is Empty
                                    && post.grid_seq() == pre.grid_seq().update(
                                    nh,
                                    Cell::Snake,
                                ).update(f, Cell::Food)
                        }
                    },
                }
            }
        },
    }
}

/// Membership in a duplicate-free body after one ordinary move: drop the
/// tail, push the new head.
proof fn lemma_move_contains(s: Seq<int>, nh: int, h: int)
    requires
        s.len() >= 1,
        forall|i: int, j: int| 0 <= i < j < s.len() ==> s[i] != s[j],
    ensures
        s.drop_first().push(nh).contains(h) <==> (h == nh || (s.contains(h) && h != s[0])),
{
    let t = s.drop_first().push(nh);
    if t.contains(h) {
        let i = choose|i: int| 0 <= i < t.len() && t[i] == h;
        if i < s.len() - 1 {
            assert(s[i + 1] == h);
            assert(s.contains(h));
        } else {
            assert(h == nh);
        }
    }
    if h == nh {
        assert(t[t.len() - 1] == nh);
        assert(t.contains(h));
    } else if s.contains(h) && h != s[0] {
        let i = choose|i: int| 0 <= i < s.len() && s[i] == h;
        assert(i != 0);
        assert(t[i - 1] == h);
        assert(t.contains(h));
    }
}

/// Membership in a body after a growing move: push the new head only.
proof fn lemma_push_contains(s: Seq<int>, nh: int, h: int)
    ensures
        s.push(nh).contains(h) <==> (s.contains(h) || h == nh),
{
    let t = s.push(nh);
    if t.contains(h) {
        let i = choose|i: int| 0 <= i < t.len() && t[i] == h;
        if i < s.len() {
            assert(s.contains(h));
        }
    }
    if s.contains(h) {
        let i = choose|i: int| 0 <= i < s.len() && s[i] == h;
        assert(t[i] == h);
        assert(t.contains(h));
    }
    if h == nh {
        assert(t[s.len() as int] == h);
        assert(t.contains(h));
    }
}

/// An ordinary move — tail popped and freed, head pushed onto a previously
/// empty tile — preserves the state invariant.
proof fn lemma_empty_move(pre: GameState, post: GameState, d: Direction)
    requires
        pre.inv(),
        target_on_board(pre, d),
        pre.grid_seq()[target_idx(pre, d)] is Empty,
        one_step_apart(head_idx(pre), target_idx(pre, d)),
        0 <= pre.ring.body()[0] < MAP_SIZE,
        post.ring.wf(),
        post.free.wf(),
        post.map@ == pre.map@.update(pre.ring.body()[0], Cell::Empty).update(
            target_idx(pre, d),
            Cell::Snake,
        ),
        post.ring.body() == pre.ring.body().drop_first().push(target_idx(pre, d)),
        post.free.count_nat() == pre.free.count_nat(),
        forall|h: int|
            post.free.is_free(h) <==> ((pre.free.is_free(h) || h == pre.ring.body()[0]) && h
                != target_idx(pre, d)),
    ensures
        post.inv(),
{
    let b = pre.ring.body();
    let b2 = post.ring.body();
    let th = b[0];
    let nh = target_idx(pre, d);
    assert(b.contains(th));
    assert(pre.map@[th] is Snake);
    assert(th != nh);
    assert(!b.contains(nh));
    assert forall|h: int|
        0 <= h < MAP_SIZE implies ((#[trigger] post.map@[h]) is Snake <==> b2.contains(h)) by {
        lemma_move_contains(b, nh, h);
    }
    assert forall|i: int, j: int| 0 <= i < j < b2.len() implies b2[i] != b2[j] by {
        if j == b2.len() - 1 && b[i + 1] == nh {
            assert(b.contains(nh));
        }
    }
    assert forall|j: int|
        0 <= j < b2.len() - 1 implies one_step_apart(#[trigger] b2[j], b2[j + 1]) by {
        if j < b2.len() - 2 {
            assert(b2[j] == b[j + 1] && b2[j + 1] == b[j + 2]);
        } else {
            assert(b2[j] == b[b.len() - 1] && b2[j + 1] == nh);
        }
    }
    let f0 = choose|h: int| 0 <= h < MAP_SIZE && (#[trigger] pre.map@[h]) is Food;
    assert(post.map@[f0] is Food);
}

/// A growing move — head pushed onto the food tile, new food drawn on a
/// free tile other than the new head — preserves the state invariant; the
/// drawn tile was empty beforehand.
proof fn lemma_grow_move(pre: GameState, post: GameState, d: Direction, fh: int)
    requires
        pre.inv(),
        target_on_board(pre, d),
        pre.grid_seq()[target_idx(pre, d)] is Food,
        pre.ring.body().len() < MAP_SIZE - 1,
        one_step_apart(head_idx(pre), target_idx(pre, d)),
        0 <= fh < MAP_SIZE,
        fh != target_idx(pre, d),
        pre.free.is_free(fh),
        post.ring.wf(),
        post.free.wf(),
        post.map@ == pre.map@.update(target_idx(pre, d), Cell::Snake).update(fh, Cell::Food),
        post.ring.body() == pre.ring.body().push(target_idx(pre, d)),
        post.free.count_nat() == pre.free.count_nat() - 1,
        forall|h: int|
            post.free.is_free(h) <==> (pre.free.is_free(h) && h != target_idx(pre, d)),
    ensures
        post.inv(),
        pre.map@[fh] is Empty,
{
    let b = pre.ring.body();
    let b2 = post.ring.body();
    let nh = target_idx(pre, d);
    assert(!b.contains(nh));
    assert(!(pre.map@[fh] is Snake));
    assert(pre.map@[fh] is Empty);
    assert forall|h: int|
        0 <= h < MAP_SIZE implies ((#[trigger] post.map@[h]) is Snake <==> b2.contains(h)) by {
        lemma_push_contains(b, nh, h);
    }
    assert forall|i: int, j: int| 0 <= i < j < b2.len() implies b2[i] != b2[j] by {
        if j == b2.len() - 1 && b[i] == nh {
            assert(b.contains(nh));
        }
    }
    assert forall|j: int|
        0 <= j < b2.len() - 1 implies one_step_apart(#[trigger] b2[j], b2[j + 1]) by {
        if j < b2.len() - 2 {
            assert(b2[j] == b[j] && b2[j + 1] == b[j + 1]);
        } else {
            assert(b2[j] == b[b.len() - 1] && b2[j + 1] == nh);
        }
    }
    assert(post.map@[fh] is Food);
}

/// Occupancy partition. In every state satisfying the invariant, the
/// snake-marked tiles are exactly those the body holds, the free set holds
/// exactly the tiles not snake-marked (the food tile among them), exactly
/// one tile holds food, and body length plus free count covers the board.
pub proof fn lemma_occupancy_partition(g: GameState)
    requires
        g.inv(),
    ensures
        g.body().len() + g.free_count() == MAP_SIZE,
        forall|h: int|
            0 <= h < MAP_SIZE ==> ((#[trigger] g.grid_seq()[h]) is Snake <==> g.body().contains(
                h,
            )),
        forall|h: int|
            0 <= h < MAP_SIZE ==> (g.cell_free(h) <==> !((#[trigger] g.grid_seq()[h]) is Snake)),
        exists|h: int| 0 <= h < MAP_SIZE && (#[trigger] g.grid_seq()[h]) is Food,
        forall|g1: int, g2: int|
            0 <= g1 < MAP_SIZE && 0 <= g2 < MAP_SIZE && (#[trigger] g.grid_seq()[g1]) is Food && (
            #[trigger] g.grid_seq()[g2]) is Food ==> g1 == g2,
{
}

/// Body contiguity. In every state satisfying the invariant, consecutive
/// body tiles, tail to head, are exactly one grid step apart on one axis.
pub proof fn lemma_body_contiguity(g: GameState)
    requires
        g.inv(),
    ensures
        forall|j: int|
            0 <= j < g.body().len() - 1 ==> one_step_apart(
                #[trigger] g.body()[j],
                g.body()[j + 1],
            ),
{
}

/// Pausing is idle. A tick with no input, while no directional input has
/// ever been accepted, reports `Ready` and leaves grid, body, free set and
/// move counter untouched. The conclusion re-establishes the hypothesis,
/// so any number of repeated such ticks does the same.
pub proof fn lemma_pause_is_idle(pre: GameState, post: GameState, phase: Phase)
    requires
        pre.dir() is None,
        tick_spec(pre, None, post, phase),
    ensures
        phase is Ready,
        post.dir() is None,
        board_unchanged(pre, post),
{
}

/// Growth law. A running tick whose target tile held food lengthens the
/// snake by exactly one, and the partition is preserved: the free count
/// drops by the one tile the new head consumed, while the freshly drawn
/// food tile stays free.
pub proof fn lemma_growth(
    pre: GameState,
    input: Option<Direction>,
    post: GameState,
    phase: Phase,
    d: Direction,
)
    requires
        pre.inv(),
        post.inv(),
        tick_spec(pre, input, post, phase),
        effective_dir(pre, input) == Some(d),
        target_on_board(pre, d),
        pre.grid_seq()[target_idx(pre, d)] is Food,
        phase is Running,
    ensures
        post.body().len() == pre.body().len() + 1,
        post.free_count() == pre.free_count() - 1,
        post.body().len() + post.free_count() == MAP_SIZE,
{
}

/// Termination laws. Stepping off the board, stepping onto a snake-marked
/// tile, and eating food while the snake already occupies all but one tile
/// each report `Over` and leave grid, body, free set and move counter
/// untouched.
pub proof fn lemma_termination(
    pre: GameState,
    input: Option<Direction>,
    post: GameState,
    phase: Phase,
    d: Direction,
)
    requires
        tick_spec(pre, input, post, phase),
        effective_dir(pre, input) == Some(d),
    ensures
        !target_on_board(pre, d) ==> phase is Over && board_unchanged(pre, post),
        target_on_board(pre, d) && pre.grid_seq()[target_idx(pre, d)] is Snake ==> phase is Over
            && board_unchanged(pre, post),
        target_on_board(pre, d) && pre.grid_seq()[target_idx(pre, d)] is Food && pre.body().len()
            >= MAP_SIZE - 1 ==> phase is Over && board_unchanged(pre, post),
{
}

/// When the snake occupies all but one tile, no tile is empty: the single
/// unoccupied tile is the food tile. This ties the board-full guard of the
/// growing move to there being no room left for a new food tile.
pub proof fn lemma_full_board_no_empty(g: GameState)
    requires
        g.inv(),
        g.body().len() == MAP_SIZE - 1,
    ensures
        forall|h: int| 0 <= h < MAP_SIZE ==> !((#[trigger] g.grid_seq()[h]) is Empty),
{
    let f = choose|h: int| 0 <= h < MAP_SIZE && (#[trigger] g.map@[h]) is Food;
    assert forall|h: int| 0 <= h < MAP_SIZE implies !((#[trigger] g.grid_seq()[h]) is Empty) by {
        if g.map@[h] is Empty {
            assert(g.free.is_free(h));
            assert(g.free.is_free(f));
            g.free.lemma_single_free(h, f);
        }
    }
}

impl GameState {
    /// The grid map, one cell kind per cell index.
    pub closed spec fn grid_seq(self) -> Seq<Cell> {
        self.map@
    }

    /// The snake body as cell indices, tail first, head last.
    pub closed spec fn body(self) -> Seq<int> {
        self.ring.body()
    }

    /// The remembered direction; `None` until the first directional input.
    pub closed spec fn dir(self) -> Option<Direction> {
        self.direction
    }

    /// Number of ticks that returned `Phase::Running` so far.
    pub closed spec fn move_count(self) -> int {
        self.moves as int
    }

    /// Number of tiles the snake does not occupy.
    pub closed spec fn free_count(self) -> nat {
        self.free.count_nat()
    }

    /// Whether cell index `h` is a tile the snake does not occupy.
    pub closed spec fn cell_free(self, h: int) -> bool {
        self.free.is_free(h)
    }

    /// The state invariant, established by the constructor and preserved
    /// by every tick.
    ///
    /// The grid, the body ring and the free set agree: the tiles marked
    /// `Snake` are exactly the body's, listed without repetition; the free
    /// set holds exactly the other tiles, so body length and free count
    /// partition the board; consecutive body tiles are one grid step
    /// apart; and exactly one tile holds food.
    pub closed spec fn inv(self) -> bool {
        &&& self.ring.wf()
        &&& self.free.wf()
        &&& self.map@.len() == MAP_SIZE
        &&& 1 <= self.ring.body().len()
        &&& self.ring.body().len() + self.free.count_nat() == MAP_SIZE
        &&& forall|h: int|
            0 <= h < MAP_SIZE ==> ((#[trigger] self.map@[h]) is Snake <==> self.ring.body().contains(h))
        &&& forall|h: int|
            0 <= h < MAP_SIZE ==> ((#[trigger] self.map@[h]) is Snake <==> !self.free.is_free(h))
        &&& forall|i: int, j: int|
            0 <= i < j < self.ring.body().len() ==> self.ring.body()[i] != self.ring.body()[j]
        &&& forall|j: int|
            0 <= j < self.ring.body().len() - 1 ==> one_step_apart(
                #[trigger] self.ring.body()[j],
                self.ring.body()[j + 1],
            )
        &&& exists|h: int| 0 <= h < MAP_SIZE && (#[trigger] self.map@[h]) is Food
        &&& forall|g: int, h: int|
            0 <= g < MAP_SIZE && 0 <= h < MAP_SIZE && (#[trigger] self.map@[g]) is Food
                && (#[trigger] self.map@[h]) is Food ==> g == h
    }

    /// A fresh game: a snake of length one at the board center, one food
    /// tile drawn uniformly among the remaining tiles, no direction chosen,
    /// no moves counted.
    pub fn new() -> (g: GameState)
        ensures
            g.inv(),
            g.dir() is None,
            g.move_count() == 0,
            g.body() =~= seq![center_idx()],
            exists|f: int|
                0 <= f < MAP_SIZE && f != center_idx() && g.grid_seq() =~= empty_grid().update(
                    center_idx(),
                    Cell::Snake,
                ).update(f, Cell::Food),
    {
        let mut map: Vec<Cell> = Vec::new();
        while map.len() < MAP_SIZE
            invariant
                map@.len() <= MAP_SIZE,
                forall|s: int| 0 <= s < map@.len() ==> #[trigger] map@[s] is Empty,
            decreases MAP_SIZE - map@.len(),
        {
            map.push(Cell::Empty);
        }
        let mut ring = OccupancyRing::new();
        let mut free = FreeSet::new_full();
        let center = Position {
            x: (MAP_SIDE_LENGTH / 2) as i8,
            y: (MAP_SIDE_LENGTH / 2) as i8,
        };
        proof {
            lemma_idx_decompose(center);
        }
        let ch: usize = center.as_hash();
        ring.push_head(center);
        free.remove(center);
        map.set(ch, Cell::Snake);
        let food = free.sample_uniform();
        proof {
            free.lemma_free_in_range(food.idx());
        }
        let fh: usize = food.as_hash();
        map.set(fh, Cell::Food);
        let g = GameState { direction: None, map, ring, free, moves: 0 };
        proof {
            assert(g.body() =~= seq![center_idx()]);
            assert forall|h: int| 0 <= h < MAP_SIZE implies ((#[trigger] g.map@[h]) is Snake
                <==> g.ring.body().contains(h)) by {
                if g.ring.body().contains(h) {
                    assert(g.ring.body()[0] == center_idx());
                }
                if h == center_idx() {
                    assert(g.ring.body()[0] == h);
                }
            }
            assert(g.map@[fh as int] is Food);
            assert(g.grid_seq() =~= empty_grid().update(center_idx(), Cell::Snake).update(
                fh as int,
                Cell::Food,
            ));
        }
        g
    }

    /// Read-only view of the grid, for rendering.
    pub fn grid(&self) -> (g: &Vec<Cell>)
        ensures
            g@ == self.grid_seq(),
    {
        &self.map
    }

    /// Number of ticks that returned `Phase::Running` so far.
    pub fn moves(&self) -> (n: usize)
        ensures
            n == self.move_count(),
    {
        self.moves
    }

    /// Number of tiles the snake occupies.
    pub fn snake_len(&self) -> (n: usize)
        ensures
            n == self.body().len(),
    {
        self.ring.len()
    }

    /// Advances the game by one tick, acting on the direction input.
    ///
    /// The order of the sub-steps is load-bearing: on an ordinary move the
    /// tail is popped and freed before the head is pushed, and on a
    /// growing move the new food tile is drawn only after the head has
    /// been pushed, so it can never land on the tile the head just took.
    pub fn tick(&mut self, input: Option<Direction>) -> (phase: Phase)
        requires
            old(self).inv(),
        ensures
            final(self).inv(),
            tick_spec(*old(self), input, *final(self), phase),
    {
        if let Some(d) = input {
            self.direction = Some(d);
        }
        proof {
            assert(self.direction == effective_dir(*old(self), input));
        }
        let d = match self.direction {
            None => {
                return Phase::Ready;
            },
            Some(d) => d,
        };
        let head: Position = self.ring.head();
        proof {
            lemma_idx_decompose(head);
        }
        let (dx, dy): (i8, i8) = d.offsets();
        let nx: i8 = head.x + dx;
        let ny: i8 = head.y + dy;
        proof {
            assert(target_x(*old(self), d) == nx);
            assert(target_y(*old(self), d) == ny);
        }
        if nx < 0 || nx >= MAP_SIDE_LENGTH as i8 || ny < 0 || ny >= MAP_SIDE_LENGTH as i8 {
            return Phase::Over;
        }
        let np = Position { x: nx, y: ny };
        proof {
            lemma_idx_decompose(np);
            lemma_step_adjacent(head, np, d);
        }
        let nh: usize = np.as_hash();
        proof {
            assert(target_idx(*old(self), d) == nh);
        }
        match self.map[nh] {
            Cell::Snake => Phase::Over,
            Cell::Empty => {
                let tail_p: Position = self.ring.pop_tail();
                proof {
                    lemma_idx_decompose(tail_p);
                    assert(old(self).ring.body().contains(tail_p.idx())) by {
                        assert(old(self).ring.body()[0] == tail_p.idx());
                    }
                    assert(old(self).map@[tail_p.idx()] is Snake);
                    assert(!old(self).free.is_free(tail_p.idx()));
                }
                self.free.insert(tail_p);
                let th: usize = tail_p.as_hash();
                self.map.set(th, Cell::Empty);
                self.ring.push_head(np);
                self.free.remove(np);
                self.map.set(nh, Cell::Snake);
                if self.moves < usize::MAX {
                    self.moves = self.moves + 1;
                }
                proof {
                    lemma_empty_move(*old(self), *self, d);
                }
                Phase::Running
            },
            Cell::Food => {
                if self.ring.len() >= MAP_SIZE - 1 {
                    return Phase::Over;
                }
                self.ring.push_head(np);
                self.free.remove(np);
                self.map.set(nh, Cell::Snake);
                let food_p: Position = self.free.sample_uniform();
                proof {
                    lemma_idx_decompose(food_p);
                }
                let fh: usize = food_p.as_hash();
                self.map.set(fh, Cell::Food);
                if self.moves < usize::MAX {
                    self.moves = self.moves + 1;
                }
                proof {
                    lemma_grow_move(*old(self), *self, d, fh as int);
                    let pre = *old(self);
                    let t = target_idx(pre, d);
                    let fi = fh as int;
                    assert(0 <= fi && fi < MAP_SIZE && fi != t && pre.grid_seq()[fi] is Empty
                        && self.grid_seq() == pre.grid_seq().update(t, Cell::Snake).update(
                        fi,
                        Cell::Food,
                    ));
                }
                Phase::Running
            },
        }
    }
}

} // verus!
