//! One game: a piece, a playfield and a gravity ticker, driven by ticks and
//! batches of user events.
use vstd::prelude::*;
use crate::geometry::Point;
use crate::shape::{BlockType, COLUMNS, ROWS, code_of, pattern};
use crate::block::{
    fits_i32,
    Block, aligned, align_fits, box_fits, box_height, clamp_fits, clamped, drop_steps, drop_stop,
    guard_says, guard_total, lemma_box4, lemma_shift_compose, lemma_shift_zero, max_y, min_y,
    moved_by, passes, rotate_fits, rotated, shift_fits, shifted, is_fresh,
};
use crate::grid::{Grid, cleared, empty_at, filled, rests, rests_at};

verus! {

/// A modulo counter: every `fact`-th tick is a gravity pulse.
#[derive(Debug)]
pub struct Ticker {
    pub fact: u32,
    pub elapsed: u32,
}

impl Ticker {
    pub open spec fn wf(&self) -> bool {
        self.elapsed < self.fact || self.elapsed == 0
    }

    pub fn new(fact: u32) -> (r: Ticker)
        ensures
            r.fact == fact,
            r.elapsed == 0,
            r.wf(),
    {
        Ticker { fact, elapsed: 0 }
    }

    /// Counts one tick; true, with the count reset, when `fact` ticks have passed.
    pub fn tick(&mut self) -> (r: bool)
        requires
            old(self).wf(),
        ensures
            final(self).wf(),
            final(self).fact == old(self).fact,
            r == (old(self).elapsed + 1 >= old(self).fact),
            final(self).elapsed == if r {
                0
            } else {
                old(self).elapsed + 1
            },
    {
        self.elapsed += 1;
        if self.elapsed >= self.fact {
            self.elapsed = 0;
            true
        } else {
            false
        }
    }
}

#[derive(Debug, Clone, Copy, PartialEq, Eq, Structural)]
pub enum BlockEvent {
    Left,
    Right,
    Down,
    Drop,
    Rotate,
    Idle,
}

/// The points after a one-step move against the field: moved where the
/// moved cells are free, unchanged where they are not.
pub open spec fn try_move(rows: Seq<Seq<u8>>, s: Seq<Point>, dx: int, dy: int) -> Seq<Point> {
    if empty_at(rows, shifted(s, dx, dy)) {
        shifted(s, dx, dy)
    } else {
        s
    }
}

/// How far a hard drop from `s` descends, counting from `j` rows down.
pub open spec fn drop_dist(rows: Seq<Seq<u8>>, s: Seq<Point>, j: int) -> int
    decreases drop_steps(s) - j,
{
    if j >= drop_steps(s) || !empty_at(rows, shifted(s, 0, j + 1)) {
        j
    } else {
        drop_dist(rows, s, j + 1)
    }
}

pub open spec fn dropped(rows: Seq<Seq<u8>>, s: Seq<Point>) -> Seq<Point> {
    shifted(s, 0, drop_dist(rows, s, 0))
}

/// What one user event does to the piece's points.
pub open spec fn step(rows: Seq<Seq<u8>>, kind: BlockType, s: Seq<Point>, e: BlockEvent) -> Seq<
    Point,
> {
    match e {
        BlockEvent::Rotate => if kind == BlockType::O {
            s
        } else {
            rotated(s)
        },
        BlockEvent::Left => try_move(rows, s, -1, 0),
        BlockEvent::Right => try_move(rows, s, 1, 0),
        BlockEvent::Down => try_move(rows, s, 0, 1),
        BlockEvent::Drop => dropped(rows, s),
        BlockEvent::Idle => s,
    }
}

/// Events `i..` applied in order, each followed by the bounds clamp, stopping
/// at the first one after which the piece rests: the points reached, and
/// whether it came to rest.
pub open spec fn run(
    rows: Seq<Seq<u8>>,
    kind: BlockType,
    s: Seq<Point>,
    evs: Seq<BlockEvent>,
    i: int,
) -> (Seq<Point>, bool)
    decreases evs.len() - i,
{
    if i < 0 || i >= evs.len() {
        (s, false)
    } else {
        let p = step(rows, kind, s, evs[i]);
        if rests(rows, p) {
            (p, true)
        } else {
            run(rows, kind, clamped(p), evs, i + 1)
        }
    }
}

/// The field after a piece of `kind` locks at `s`: its cells written, then
/// the full rows among those it spans cleared.
pub open spec fn locked(rows: Seq<Seq<u8>>, kind: BlockType, s: Seq<Point>) -> Seq<Seq<u8>> {
    cleared(filled(rows, s, code_of(kind)), min_y(s), min_y(s) + box_height(s))
}

/// The guard answers exactly whether the cells collide with the field.
pub open spec fn guard_is_field<G: Fn(&Vec<Point>) -> bool>(g: G, rows: Seq<Seq<u8>>) -> bool {
    forall|v: &Vec<Point>, b: bool| call_ensures(g, (v,), b) ==> b == !empty_at(rows, v@)
}

pub open spec fn has_row(s: Seq<Point>, r: int) -> bool {
    s[0].y == r || s[1].y == r || s[2].y == r || s[3].y == r
}

pub open spec fn has_col(s: Seq<Point>, c: int) -> bool {
    s[0].x == c || s[1].x == c || s[2].x == c || s[3].x == c
}

/// Four cells within two of the pivot (the third cell) in each direction,
/// with no gap between the pivot and a cell two rows or columns away.
pub open spec fn compact(s: Seq<Point>) -> bool {
    &&& s.len() == 4
    &&& forall|i: int|
        0 <= i < 4 ==> -2 <= (#[trigger] s[i]).x - s[2].x <= 2 && -2 <= s[i].y - s[2].y <= 2
    &&& forall|i: int| 0 <= i < 4 && #[trigger] s[i].y == s[2].y + 2 ==> has_row(s, s[2].y + 1)
    &&& forall|i: int| 0 <= i < 4 && #[trigger] s[i].y == s[2].y - 2 ==> has_row(s, s[2].y - 1)
    &&& forall|i: int| 0 <= i < 4 && #[trigger] s[i].x == s[2].x + 2 ==> has_col(s, s[2].x + 1)
    &&& forall|i: int| 0 <= i < 4 && #[trigger] s[i].x == s[2].x - 2 ==> has_col(s, s[2].x - 1)
}

/// Where a piece stands between two steps of a game: within the columns,
/// above the bottom row, its pivot no higher than three rows above the board.
pub open spec fn at_rest(s: Seq<Point>) -> bool {
    &&& compact(s)
    &&& forall|i: int| 0 <= i < 4 ==> 0 <= (#[trigger] s[i]).x < COLUMNS && s[i].y <= ROWS - 2
    &&& s[2].y >= -3
}

/// Where a piece may stand right after one user event, before the clamp.
pub open spec fn after_step(s: Seq<Point>) -> bool {
    &&& compact(s)
    &&& forall|i: int| 0 <= i < 4 ==> -3 <= (#[trigger] s[i]).x < COLUMNS + 3 && s[i].y <= ROWS
    &&& -3 <= s[2].y <= ROWS - 1
}

pub proof fn lemma_compact_shift(s: Seq<Point>, dx: int, dy: int)
    requires
        compact(s),
        shift_fits(s, dx, dy),
    ensures
        compact(shifted(s, dx, dy)),
{
    let t = shifted(s, dx, dy);
    assert(forall|i: int| 0 <= i < 4 ==> #[trigger] t[i].x == s[i].x + dx && t[i].y == s[i].y + dy);
}

proof fn lemma_rotate_step(s: Seq<Point>)
    requires
        at_rest(s),
    ensures
        rotate_fits(s),
        after_step(rotated(s)),
{
    let t = rotated(s);
    assert forall|i: int| 0 <= i < s.len() implies fits_i32(s[2].x + (#[trigger] s[i].y - s[2].y))
        && fits_i32(s[2].y - (s[i].x - s[2].x)) by {
        assert(0 <= i < 4);
        assert(-2 <= s[i].x - s[2].x <= 2);
    }
    assert(forall|i: int|
        0 <= i < 4 ==> #[trigger] t[i].x == s[2].x + (s[i].y - s[2].y) && t[i].y == s[2].y - (s[i].x
            - s[2].x));
    assert(t[2] == s[2]);
}

proof fn lemma_drop_dist_range(rows: Seq<Seq<u8>>, s: Seq<Point>, j: int)
    requires
        0 <= j,
    ensures
        j <= drop_dist(rows, s, j),
        drop_dist(rows, s, j) <= if j > drop_steps(s) { j } else { drop_steps(s) },
    decreases drop_steps(s) - j,
{
    if !(j >= drop_steps(s) || !empty_at(rows, shifted(s, 0, j + 1))) {
        lemma_drop_dist_range(rows, s, j + 1);
    }
}

/// A drop that stopped `n` rows down under a guard that answers for the field
/// stopped where the field-based drop does.
proof fn lemma_drop_matches<G: Fn(&Vec<Point>) -> bool>(
    g: G,
    rows: Seq<Seq<u8>>,
    s: Seq<Point>,
    n: int,
    j: int,
)
    requires
        drop_stop(g, s, n),
        guard_is_field(g, rows),
        0 <= j <= n,
    ensures
        drop_dist(rows, s, j) == n,
    decreases n - j,
{
    if j < n {
        assert(passes(g, s, j));
        let v = choose|v: Vec<Point>| v@ == shifted(s, 0, j + 1) && call_ensures(g, (&v,), false);
        assert(empty_at(rows, shifted(s, 0, j + 1)));
        lemma_drop_matches(g, rows, s, n, j + 1);
    } else if n < drop_steps(s) {
        let v = choose|v: Vec<Point>| v@ == shifted(s, 0, n + 1) && call_ensures(g, (&v,), true);
        assert(!empty_at(rows, shifted(s, 0, n + 1)));
    }
}

proof fn lemma_move_matches<G: Fn(&Vec<Point>) -> bool>(
    g: G,
    rows: Seq<Seq<u8>>,
    s: Seq<Point>,
    dx: int,
    dy: int,
    r: Seq<Point>,
)
    requires
        moved_by(g, s, dx, dy, r),
        guard_is_field(g, rows),
    ensures
        r == try_move(rows, s, dx, dy),
{
    if guard_says(g, shifted(s, dx, dy), true) && r == s {
        let v = choose|v: Vec<Point>| v@ == shifted(s, dx, dy) && call_ensures(g, (&v,), true);
    } else {
        let v = choose|v: Vec<Point>| v@ == shifted(s, dx, dy) && call_ensures(g, (&v,), false);
    }
}

/// A one-step move from a resting position lands within the after-step bounds.
proof fn lemma_move_step(rows: Seq<Seq<u8>>, s: Seq<Point>, dx: int, dy: int)
    requires
        at_rest(s),
        -1 <= dx <= 1,
        0 <= dy <= 1,
    ensures
        shift_fits(s, dx, dy),
        after_step(try_move(rows, s, dx, dy)),
{
    assert(shift_fits(s, dx, dy));
    lemma_compact_shift(s, dx, dy);
    let t = shifted(s, dx, dy);
    assert(forall|i: int| 0 <= i < 4 ==> #[trigger] t[i].x == s[i].x + dx && t[i].y == s[i].y + dy);
}

proof fn lemma_drop_step(rows: Seq<Seq<u8>>, s: Seq<Point>)
    requires
        at_rest(s),
    ensures
        box_fits(s),
        max_y(s) < i32::MAX,
        after_step(dropped(rows, s)),
        0 <= drop_dist(rows, s, 0) <= drop_steps(s),
{
    lemma_box4(s);
    assert(s[0].y <= ROWS - 2 && s[1].y <= ROWS - 2 && s[2].y <= ROWS - 2 && s[3].y <= ROWS - 2);
    assert(-5 <= s[0].y && -5 <= s[1].y && -5 <= s[3].y);
    lemma_drop_dist_range(rows, s, 0);
    let d = drop_dist(rows, s, 0);
    assert(shift_fits(s, 0, d));
    lemma_compact_shift(s, 0, d);
    let t = shifted(s, 0, d);
    assert(forall|i: int| 0 <= i < 4 ==> #[trigger] t[i].x == s[i].x && t[i].y == s[i].y + d);
}

/// Every user event from a resting position lands within the after-step bounds.
proof fn lemma_step(rows: Seq<Seq<u8>>, kind: BlockType, s: Seq<Point>, e: BlockEvent)
    requires
        at_rest(s),
    ensures
        after_step(step(rows, kind, s, e)),
{
    assert(s[2].y <= ROWS - 2);
    match e {
        BlockEvent::Rotate => {
            if kind != BlockType::O {
                lemma_rotate_step(s);
            }
        },
        BlockEvent::Left => lemma_move_step(rows, s, -1, 0),
        BlockEvent::Right => lemma_move_step(rows, s, 1, 0),
        BlockEvent::Down => lemma_move_step(rows, s, 0, 1),
        BlockEvent::Drop => lemma_drop_step(rows, s),
        BlockEvent::Idle => {},
    }
}

/// A piece that does not rest after a step stands at least two rows above the floor.
proof fn lemma_not_resting(rows: Seq<Seq<u8>>, s: Seq<Point>)
    requires
        after_step(s),
        !rests(rows, s),
    ensures
        forall|i: int| 0 <= i < 4 ==> #[trigger] s[i].y <= ROWS - 2,
{
    assert forall|i: int| 0 <= i < 4 implies #[trigger] s[i].y != ROWS - 1 by {
        if s[i].y == ROWS - 1 {
            assert(rests_at(rows, s[i]));
        }
    }
    assert(s[2].y <= ROWS - 2);
    assert forall|i: int| 0 <= i < 4 implies #[trigger] s[i].y <= ROWS - 2 by {
        if s[i].y == ROWS {
            assert(s[i].y == s[2].y + 2);
            assert(has_row(s, s[2].y + 1));
        }
    }
}

/// The clamp brings a piece that does not rest after a step back to a resting position.
proof fn lemma_settle(rows: Seq<Seq<u8>>, s: Seq<Point>)
    requires
        after_step(s),
        !rests(rows, s),
    ensures
        clamp_fits(s),
        at_rest(clamped(s)),
{
    lemma_not_resting(rows, s);
    lemma_box4(s);
    assert(forall|i: int| 0 <= i < 4 ==> -3 <= #[trigger] s[i].x < COLUMNS + 3);
    assert(-3 <= s[0].x < COLUMNS + 3 && -3 <= s[1].x < COLUMNS + 3 && -3 <= s[3].x
        < COLUMNS + 3);
    assert(s[0].y <= ROWS - 2 && s[1].y <= ROWS - 2 && s[3].y <= ROWS - 2);
    assert(-5 <= s[0].y && -5 <= s[1].y && -5 <= s[3].y);
    let dl = crate::block::clamp_dx_left(s);
    let dr = crate::block::clamp_dx_right(s);
    assert(shift_fits(s, dl, 0));
    assert(shift_fits(s, dl + dr, 0));
    lemma_shift_compose(s, dl, 0, dr, 0);
    assert(crate::block::clamp_dy(s) == 0);
    lemma_shift_zero(shifted(s, dl + dr, 0));
    lemma_compact_shift(s, dl + dr, 0);
    let t = shifted(s, dl + dr, 0);
    assert(clamped(s) == t);
    assert(forall|i: int| 0 <= i < 4 ==> #[trigger] t[i].x == s[i].x + dl + dr && t[i].y == s[i].y);
}

/// A resting piece may be aligned, and the aligned piece rests too.
proof fn lemma_align_at_rest(s: Seq<Point>)
    requires
        at_rest(s),
    ensures
        align_fits(s),
        at_rest(aligned(s)),
{
    lemma_box4(s);
    assert(0 <= s[0].x < COLUMNS && 0 <= s[1].x < COLUMNS && 0 <= s[3].x < COLUMNS);
    assert(s[0].y <= ROWS - 2 && s[1].y <= ROWS - 2 && s[3].y <= ROWS - 2);
    assert(-5 <= s[0].y && -5 <= s[1].y && -5 <= s[3].y);
    let dx = crate::block::align_dx(s);
    let dy = crate::block::align_dy(s);
    assert(shift_fits(s, dx, dy));
    lemma_compact_shift(s, dx, dy);
    let t = aligned(s);
    assert(forall|i: int| 0 <= i < 4 ==> #[trigger] t[i].x == s[i].x + dx && t[i].y == s[i].y + dy);
}

/// The kinds' patterns rest, so spawned pieces may be aligned.
proof fn lemma_pattern_at_rest(kind: BlockType)
    ensures
        at_rest(pattern(kind)),
        align_fits(pattern(kind)),
        at_rest(aligned(pattern(kind))),
{
    let s = pattern(kind);
    assert(s.len() == 4);
    assert(at_rest(s));
    lemma_align_at_rest(s);
}

/// The lookahead, if any, is a spawned piece's pattern.
pub open spec fn next_ok(next: Option<Box<Block>>) -> bool {
    match next {
        Some(n) => n.points@ == pattern(n.block_type),
        None => true,
    }
}

#[derive(Debug)]
pub struct Tetris {
    pub block: Block,
    pub grid: Grid,
    pub ticker: Ticker,
}

impl Tetris {
    pub open spec fn inv(&self) -> bool {
        &&& self.grid.wf()
        &&& self.ticker.wf()
        &&& at_rest(self.block.points@)
        &&& next_ok(self.block.next)
    }

    /// The piece locked at `s` and the lookahead taken over: `self` holds
    /// the field `old` had with the piece written and full rows cleared, and
    /// the old lookahead, aligned, as its piece.
    pub open spec fn locked_from(&self, old: Tetris, s: Seq<Point>) -> bool {
        &&& self.grid.rows() == locked(old.grid.rows(), old.block.block_type, s)
        &&& old.block.next matches Some(n) && self.block.block_type == n.block_type
            && self.block.color == n.color && self.block.points@ == aligned(n.points@)
        &&& self.block.next matches Some(n) && is_fresh(*n)
    }

    /// `self` is `old` after `init`: the piece aligned to the start
    /// position, a lookahead loaded if none was queued.
    pub open spec fn inited_from(&self, old: Tetris) -> bool {
        &&& self.block.block_type == old.block.block_type
        &&& self.block.color == old.block.color
        &&& self.block.points@ == aligned(old.block.points@)
        &&& old.block.next is Some ==> self.block.next == old.block.next
        &&& old.block.next is None ==> (self.block.next matches Some(n) && is_fresh(*n))
        &&& self.grid == old.grid
        &&& self.ticker == old.ticker
    }

    /// `self` is `old` after the events `evs`, where `l` tells whether the piece locked.
    pub open spec fn handled_from(&self, old: Tetris, evs: Seq<BlockEvent>, l: bool) -> bool {
        let (p, rested) = run(old.grid.rows(), old.block.block_type, old.block.points@, evs, 0);
        &&& l == rested
        &&& self.ticker == old.ticker
        &&& !l ==> self.block.points@ == p && self.block.same_but_points(old.block) && self.grid
            == old.grid
        &&& l ==> self.locked_from(old, p)
    }

    /// `self` is `old` after one tick.
    pub open spec fn ticked_from(&self, old: Tetris) -> bool {
        let pulse = old.ticker.elapsed + 1 >= old.ticker.fact;
        let p = if pulse {
            try_move(old.grid.rows(), old.block.points@, 0, 1)
        } else {
            old.block.points@
        };
        &&& self.ticker.fact == old.ticker.fact
        &&& self.ticker.elapsed == if pulse {
            0
        } else {
            old.ticker.elapsed + 1
        }
        &&& !rests(old.grid.rows(), p) ==> self.block.points@ == p && self.block.same_but_points(
            old.block,
        ) && self.grid == old.grid
        &&& rests(old.grid.rows(), p) ==> self.locked_from(old, p)
    }

    pub fn new() -> (r: Tetris)
        ensures
            r.inv(),
            is_fresh(r.block),
            r.grid.rows() == crate::grid::zero_rows(ROWS as int),
            r.ticker.fact == 10,
            r.ticker.elapsed == 0,
    {
        let block = Block::new(BlockType::random());
        proof {
            lemma_pattern_at_rest(block.block_type);
        }
        Tetris { block, grid: Grid::new(), ticker: Ticker::new(10) }
    }

    /// Puts the piece at the start position and loads a lookahead if none is queued.
    pub fn init(&mut self)
        requires
            old(self).inv(),
        ensures
            final(self).inv(),
            final(self).inited_from(*old(self)),
    {
        proof {
            lemma_align_at_rest(self.block.points@);
        }
        self.block.align_to_start();
        if self.block.next_ref().is_none() {
            self.block.load_next();
        }
    }

    /// Locks the piece into the field, clears full rows and takes over the lookahead.
    fn lock(&mut self)
        requires
            old(self).grid.wf(),
            old(self).ticker.wf(),
            after_step(old(self).block.points@),
            next_ok(old(self).block.next),
            old(self).block.next is Some,
        ensures
            final(self).inv(),
            final(self).locked_from(*old(self), old(self).block.points@),
            final(self).ticker == old(self).ticker,
    {
        proof {
            lemma_box4(self.block.points@);
            let s = self.block.points@;
            assert(-5 <= s[0].y && -5 <= s[1].y && -5 <= s[3].y);
            assert(-3 <= s[0].x < COLUMNS + 3 && -3 <= s[1].x < COLUMNS + 3 && -3 <= s[3].x
                < COLUMNS + 3);
            assert(s[0].y <= ROWS && s[1].y <= ROWS && s[3].y <= ROWS);
            lemma_pattern_at_rest(self.block.next.unwrap().block_type);
        }
        self.grid.fill(&self.block);
        self.grid.erase_full_row(&self.block);
        self.block.apply_next();
    }

    /// Applies the events in order against the field, clamping the piece to
    /// the bounds after each; stops at the first event after which the piece
    /// rests, and then locks it. Returns whether it locked.
    pub fn apply_user_events(&mut self, events: &Vec<BlockEvent>) -> (r: bool)
        requires
            old(self).inv(),
            old(self).block.next is Some,
        ensures
            final(self).inv(),
            final(self).block.next is Some,
            final(self).ticker == old(self).ticker,
            final(self).handled_from(*old(self), events@, r),
    {
        let ghost rows = self.grid.rows();
        let ghost kind = self.block.block_type;
        let ghost goal = run(rows, kind, self.block.points@, events@, 0);
        let mut i: usize = 0;
        while i < events.len()
            invariant
                i <= events.len(),
                self.inv(),
                self.block.next is Some,
                self.grid == old(self).grid,
                self.ticker == old(self).ticker,
                self.block.same_but_points(old(self).block),
                rows == self.grid.rows(),
                kind == self.block.block_type,
                goal == run(rows, kind, old(self).block.points@, events@, 0),
                run(rows, kind, self.block.points@, events@, i as int) == goal,
            decreases events.len() - i,
        {
            let ghost s = self.block.points@;
            let e = events[i];
            proof {
                lemma_step(rows, kind, s, e);
            }
            {
                let grid = &self.grid;
                let guard = |points: &Vec<Point>| -> (b: bool)
                    requires
                        grid.wf(),
                    ensures
                        b == !empty_at(grid.rows(), points@),
                    { !grid.is_empty(points) };
                assert(guard_total(guard));
                assert(guard_is_field(guard, rows));
                match e {
                    BlockEvent::Rotate => {
                        if self.block.block_type != BlockType::O {
                            proof {
                                lemma_rotate_step(s);
                            }
                            self.block.rotate();
                        }
                    },
                    BlockEvent::Left => {
                        proof {
                            lemma_move_step(rows, s, -1, 0);
                        }
                        self.block.left(guard);
                        proof {
                            lemma_move_matches(guard, rows, s, -1, 0, self.block.points@);
                        }
                    },
                    BlockEvent::Right => {
                        proof {
                            lemma_move_step(rows, s, 1, 0);
                        }
                        self.block.right(guard);
                        proof {
                            lemma_move_matches(guard, rows, s, 1, 0, self.block.points@);
                        }
                    },
                    BlockEvent::Down => {
                        proof {
                            lemma_move_step(rows, s, 0, 1);
                        }
                        self.block.down(guard);
                        proof {
                            lemma_move_matches(guard, rows, s, 0, 1, self.block.points@);
                        }
                    },
                    BlockEvent::Drop => {
                        proof {
                            lemma_drop_step(rows, s);
                        }
                        self.block.drop(guard);
                        proof {
                            let n = choose|n: int|
                                #[trigger] drop_stop(guard, s, n) && self.block.points@ == shifted(
                                    s,
                                    0,
                                    n,
                                );
                            lemma_drop_matches(guard, rows, s, n, 0);
                        }
                    },
                    BlockEvent::Idle => {},
                }
            }
            assert(self.block.points@ == step(rows, kind, s, e));
            if !self.grid.is_empty_below(&self.block.points) {
                self.lock();
                return true;
            }
            proof {
                lemma_settle(rows, self.block.points@);
            }
            self.block.adjust_bound();
            i += 1;
        }
        false
    }

    /// Applies a batch of user events, if there is one.
    pub fn event(&mut self, block_events: Option<Vec<BlockEvent>>)
        requires
            old(self).inv(),
            old(self).block.next is Some,
        ensures
            final(self).inv(),
            final(self).block.next is Some,
            final(self).ticker == old(self).ticker,
            match block_events {
                None => final(self).block.points@ == old(self).block.points@
                    && final(self).block.same_but_points(old(self).block) && final(self).grid
                    == old(self).grid,
                Some(evs) => final(self).handled_from(*old(self), evs@, run(
                    old(self).grid.rows(),
                    old(self).block.block_type,
                    old(self).block.points@,
                    evs@,
                    0,
                ).1),
            },
    {
        match block_events {
            Some(events) => {
                self.apply_user_events(&events);
            },
            None => {},
        }
    }

    /// Advances the ticker; on a gravity pulse moves the piece down if the
    /// cells below are free; then locks it if it rests.
    pub fn tick(&mut self)
        requires
            old(self).inv(),
            old(self).block.next is Some,
        ensures
            final(self).inv(),
            final(self).block.next is Some,
            final(self).ticked_from(*old(self)),
    {
        let ghost rows = self.grid.rows();
        let ghost s = self.block.points@;
        if self.ticker.tick() {
            let grid = &self.grid;
            let guard = |points: &Vec<Point>| -> (b: bool)
                requires
                    grid.wf(),
                ensures
                    b == !empty_at(grid.rows(), points@),
                { !grid.is_empty(points) };
            assert(guard_total(guard));
            assert(guard_is_field(guard, rows));
            proof {
                lemma_move_step(rows, s, 0, 1);
            }
            self.block.down(guard);
            proof {
                lemma_move_matches(guard, rows, s, 0, 1, self.block.points@);
            }
        } else {
            proof {
                lemma_move_step(rows, s, 0, 0);
                lemma_shift_zero(s);
            }
        }
        if !self.grid.is_empty_below(&self.block.points) {
            self.lock();
        } else {
            proof {
                lemma_not_resting(rows, self.block.points@);
            }
        }
    }

    pub fn get_block(&self) -> (r: Block)
        ensures
            r.looks_like(self.block),
    {
        self.block.snapshot()
    }

    pub fn get_grid(&self) -> (r: Grid)
        ensures
            r.rows() == self.grid.rows(),
    {
        self.grid.snapshot()
    }
}

} // verus!
