//! The falling piece: its kind, its four live cells and the queued lookahead.
use vstd::prelude::*;
use crate::geometry::{Point, Rect};
use crate::shape::{BlockType, Color, COLUMNS, ROWS, color_of, pattern};

verus! {

pub open spec fn fits_i32(v: int) -> bool {
    i32::MIN <= v <= i32::MAX
}

pub open spec fn shift_pt(p: Point, dx: int, dy: int) -> Point {
    Point { x: (p.x + dx) as i32, y: (p.y + dy) as i32 }
}

/// Every point translated by `(dx, dy)`.
pub open spec fn shifted(s: Seq<Point>, dx: int, dy: int) -> Seq<Point> {
    Seq::new(s.len(), |i: int| shift_pt(s[i], dx, dy))
}

/// The translation by `(dx, dy)` stays within `i32`.
pub open spec fn shift_fits(s: Seq<Point>, dx: int, dy: int) -> bool {
    forall|i: int| 0 <= i < s.len() ==> fits_i32(#[trigger] s[i].x + dx) && fits_i32(s[i].y + dy)
}

/// Quarter turn of `p` about `c` (rows grow downwards).
pub open spec fn rotate_pt(p: Point, c: Point) -> Point {
    Point { x: (c.x + (p.y - c.y)) as i32, y: (c.y - (p.x - c.x)) as i32 }
}

/// Every point turned a quarter about the third point.
pub open spec fn rotated(s: Seq<Point>) -> Seq<Point> {
    Seq::new(s.len(), |i: int| rotate_pt(s[i], s[2]))
}

/// There is a pivot and the turned points stay within `i32`.
pub open spec fn rotate_fits(s: Seq<Point>) -> bool {
    &&& s.len() >= 3
    &&& forall|i: int|
        0 <= i < s.len() ==> fits_i32(s[2].x + (#[trigger] s[i].y - s[2].y)) && fits_i32(
            s[2].y - (s[i].x - s[2].x),
        )
}

pub open spec fn min_x(s: Seq<Point>) -> int
    decreases s.len(),
{
    if s.len() == 0 {
        i32::MAX as int
    } else {
        let m = min_x(s.drop_last());
        if (s.last().x as int) < m {
            s.last().x as int
        } else {
            m
        }
    }
}

pub open spec fn max_x(s: Seq<Point>) -> int
    decreases s.len(),
{
    if s.len() == 0 {
        i32::MIN as int
    } else {
        let m = max_x(s.drop_last());
        if (s.last().x as int) > m {
            s.last().x as int
        } else {
            m
        }
    }
}

pub open spec fn min_y(s: Seq<Point>) -> int
    decreases s.len(),
{
    if s.len() == 0 {
        i32::MAX as int
    } else {
        let m = min_y(s.drop_last());
        if (s.last().y as int) < m {
            s.last().y as int
        } else {
            m
        }
    }
}

pub open spec fn max_y(s: Seq<Point>) -> int
    decreases s.len(),
{
    if s.len() == 0 {
        i32::MIN as int
    } else {
        let m = max_y(s.drop_last());
        if (s.last().y as int) > m {
            s.last().y as int
        } else {
            m
        }
    }
}

pub open spec fn box_width(s: Seq<Point>) -> int {
    max_x(s) - min_x(s) + 1
}

pub open spec fn box_height(s: Seq<Point>) -> int {
    max_y(s) - min_y(s) + 1
}

/// The bounding box exists and its extents are representable.
pub open spec fn box_fits(s: Seq<Point>) -> bool {
    &&& s.len() > 0
    &&& max_x(s) - min_x(s) <= i32::MAX
    &&& max_y(s) - min_y(s) <= i32::MAX
}

/// Horizontal offset that centres the box over the columns.
pub open spec fn align_dx(s: Seq<Point>) -> int {
    (COLUMNS as int) / 2 - box_width(s) / 2 - min_x(s)
}

/// Vertical offset that puts the bottom edge of the box at row 0.
pub open spec fn align_dy(s: Seq<Point>) -> int {
    -1 - max_y(s)
}

pub open spec fn aligned(s: Seq<Point>) -> Seq<Point> {
    shifted(s, align_dx(s), align_dy(s))
}

pub open spec fn align_fits(s: Seq<Point>) -> bool {
    &&& box_fits(s)
    &&& fits_i32(align_dx(s))
    &&& fits_i32(align_dy(s))
    &&& shift_fits(s, align_dx(s), align_dy(s))
}

/// The three corrections of the bounds clamp, all taken from the box before any of them.
pub open spec fn clamp_dx_left(s: Seq<Point>) -> int {
    if min_x(s) < 0 {
        -min_x(s)
    } else {
        0
    }
}

pub open spec fn clamp_dx_right(s: Seq<Point>) -> int {
    if max_x(s) + 1 >= COLUMNS as int {
        COLUMNS as int - (max_x(s) + 1)
    } else {
        0
    }
}

pub open spec fn clamp_dy(s: Seq<Point>) -> int {
    if max_y(s) + 1 >= ROWS as int {
        ROWS as int - (max_y(s) + 1)
    } else {
        0
    }
}

pub open spec fn clamped(s: Seq<Point>) -> Seq<Point> {
    shifted(shifted(shifted(s, clamp_dx_left(s), 0), clamp_dx_right(s), 0), 0, clamp_dy(s))
}

pub open spec fn clamp_fits(s: Seq<Point>) -> bool {
    &&& box_fits(s)
    &&& i32::MIN < min_x(s)
    &&& max_x(s) < i32::MAX
    &&& max_y(s) < i32::MAX
    &&& shift_fits(s, clamp_dx_left(s), 0)
    &&& shift_fits(s, clamp_dx_left(s) + clamp_dx_right(s), 0)
}

/// How many rows a hard drop may descend at most: down to the bottom row.
pub open spec fn drop_steps(s: Seq<Point>) -> int {
    if max_y(s) + 1 < ROWS as int {
        ROWS as int - (max_y(s) + 1)
    } else {
        0
    }
}

/// `b` is a possible answer of the collision guard on the points `s`.
pub open spec fn guard_says<G: Fn(&Vec<Point>) -> bool>(guard: G, s: Seq<Point>, b: bool) -> bool {
    exists|v: Vec<Point>| v@ == s && call_ensures(guard, (&v,), b)
}

/// `r` is where a one-step move by `(dx, dy)` from `s` ends: back at `s`
/// where the guard reported the moved cells blocked, at the moved cells where it did not.
pub open spec fn moved_by<G: Fn(&Vec<Point>) -> bool>(
    guard: G,
    s: Seq<Point>,
    dx: int,
    dy: int,
    r: Seq<Point>,
) -> bool {
    ||| guard_says(guard, shifted(s, dx, dy), true) && r == s
    ||| guard_says(guard, shifted(s, dx, dy), false) && r == shifted(s, dx, dy)
}

/// A hard drop from `s` may stop `n` rows lower: the guard let every row
/// before it pass and, short of the bottom row, reported the next one blocked.
pub open spec fn drop_stop<G: Fn(&Vec<Point>) -> bool>(guard: G, s: Seq<Point>, n: int) -> bool {
    &&& 0 <= n <= drop_steps(s)
    &&& forall|j: int| 0 <= j < n ==> #[trigger] passes(guard, s, j)
    &&& n < drop_steps(s) ==> guard_says(guard, shifted(s, 0, n + 1), true)
}

/// The guard let the piece descend to `j + 1` rows below `s`.
pub open spec fn passes<G: Fn(&Vec<Point>) -> bool>(guard: G, s: Seq<Point>, j: int) -> bool {
    guard_says(guard, shifted(s, 0, j + 1), false)
}

pub open spec fn guard_total<G: Fn(&Vec<Point>) -> bool>(guard: G) -> bool {
    forall|v: &Vec<Point>| #[trigger] call_requires(guard, (v,))
}

pub proof fn lemma_shift_compose(s: Seq<Point>, a: int, b: int, c: int, d: int)
    requires
        shift_fits(s, a, b),
        shift_fits(s, a + c, b + d),
    ensures
        shifted(shifted(s, a, b), c, d) == shifted(s, a + c, b + d),
{
    assert(shifted(shifted(s, a, b), c, d) =~= shifted(s, a + c, b + d));
}

pub proof fn lemma_shift_zero(s: Seq<Point>)
    ensures
        shifted(s, 0, 0) == s,
{
    assert(shifted(s, 0, 0) =~= s);
}

/// The bounding box moves with the points.
pub proof fn lemma_box_shift(s: Seq<Point>, dx: int, dy: int)
    requires
        s.len() > 0,
        shift_fits(s, dx, dy),
    ensures
        min_x(shifted(s, dx, dy)) == min_x(s) + dx,
        max_x(shifted(s, dx, dy)) == max_x(s) + dx,
        min_y(shifted(s, dx, dy)) == min_y(s) + dy,
        max_y(shifted(s, dx, dy)) == max_y(s) + dy,
    decreases s.len(),
{
    let t = shifted(s, dx, dy);
    assert(t.drop_last() =~= shifted(s.drop_last(), dx, dy));
    assert(fits_i32(s[s.len() - 1].x + dx));
    assert(fits_i32(s[s.len() - 1].y + dy));
    assert(t.last() == shift_pt(s.last(), dx, dy));
    assert(t.last().x == s.last().x + dx);
    assert(t.last().y == s.last().y + dy);
    if s.len() > 1 {
        assert forall|i: int| 0 <= i < s.drop_last().len() implies fits_i32(
            #[trigger] s.drop_last()[i].x + dx,
        ) && fits_i32(s.drop_last()[i].y + dy) by {
            assert(s.drop_last()[i] == s[i]);
        }
        lemma_box_shift(s.drop_last(), dx, dy);
    } else {
        assert(s.drop_last().len() == 0);
        assert(t.drop_last().len() == 0);
        assert(min_x(s.drop_last()) == i32::MAX);
        assert(min_x(t.drop_last()) == i32::MAX);
        assert(max_x(s.drop_last()) == i32::MIN);
        assert(max_x(t.drop_last()) == i32::MIN);
        assert(min_y(s.drop_last()) == i32::MAX);
        assert(min_y(t.drop_last()) == i32::MAX);
        assert(max_y(s.drop_last()) == i32::MIN);
        assert(max_y(t.drop_last()) == i32::MIN);
    }
}

/// Each point lies within the bounding box.
pub proof fn lemma_box_bounds(s: Seq<Point>)
    ensures
        forall|i: int|
            0 <= i < s.len() ==> min_x(s) <= #[trigger] s[i].x <= max_x(s) && min_y(s) <= s[i].y
                <= max_y(s),
    decreases s.len(),
{
    if s.len() > 0 {
        lemma_box_bounds(s.drop_last());
        assert forall|i: int| 0 <= i < s.len() implies min_x(s) <= #[trigger] s[i].x <= max_x(s)
            && min_y(s) <= s[i].y <= max_y(s) by {
            if i < s.len() - 1 {
                assert(s.drop_last()[i] == s[i]);
            }
        }
    }
}

/// The bounding box of four points, written out.
pub proof fn lemma_box4(s: Seq<Point>)
    requires
        s.len() == 4,
    ensures
        min_x(s) == min4(s[0].x as int, s[1].x as int, s[2].x as int, s[3].x as int),
        max_x(s) == max4(s[0].x as int, s[1].x as int, s[2].x as int, s[3].x as int),
        min_y(s) == min4(s[0].y as int, s[1].y as int, s[2].y as int, s[3].y as int),
        max_y(s) == max4(s[0].y as int, s[1].y as int, s[2].y as int, s[3].y as int),
{
    let s3 = s.drop_last();
    let s2 = s3.drop_last();
    let s1 = s2.drop_last();
    let s0 = s1.drop_last();
    assert(s0.len() == 0);
    assert(min_x(s0) == i32::MAX);
    assert(max_x(s0) == i32::MIN);
    assert(min_y(s0) == i32::MAX);
    assert(max_y(s0) == i32::MIN);
    assert(s1.last() == s[0]);
    assert(s2.last() == s[1]);
    assert(s3.last() == s[2]);
    assert(min_x(s1) == s[0].x);
    assert(max_x(s1) == s[0].x);
    assert(min_y(s1) == s[0].y);
    assert(max_y(s1) == s[0].y);
    assert(s.last() == s[3]);
    assert(min_x(s2) == (if s[1].x < s[0].x { s[1].x } else { s[0].x }));
    assert(max_x(s2) == (if s[1].x > s[0].x { s[1].x } else { s[0].x }));
    assert(min_x(s3) == min_x(s2) || min_x(s3) == s[2].x);
    assert(max_x(s3) == max_x(s2) || max_x(s3) == s[2].x);
    assert(min_y(s2) == (if s[1].y < s[0].y { s[1].y } else { s[0].y }));
    assert(max_y(s2) == (if s[1].y > s[0].y { s[1].y } else { s[0].y }));
    assert(min_y(s3) == min_y(s2) || min_y(s3) == s[2].y);
    assert(max_y(s3) == max_y(s2) || max_y(s3) == s[2].y);
}

pub open spec fn min4(a: int, b: int, c: int, d: int) -> int {
    let ab = if b < a { b } else { a };
    let abc = if c < ab { c } else { ab };
    if d < abc { d } else { abc }
}

pub open spec fn max4(a: int, b: int, c: int, d: int) -> int {
    let ab = if b > a { b } else { a };
    let abc = if c > ab { c } else { ab };
    if d > abc { d } else { abc }
}

/// A quarter turn applied four times gives back the same points.
pub proof fn lemma_rotate_four_times(s: Seq<Point>)
    requires
        rotate_fits(s),
        rotate_fits(rotated(s)),
        rotate_fits(rotated(rotated(s))),
        rotate_fits(rotated(rotated(rotated(s)))),
    ensures
        rotated(rotated(rotated(rotated(s)))) == s,
{
    let r1 = rotated(s);
    let r2 = rotated(r1);
    let r3 = rotated(r2);
    let r4 = rotated(r3);
    assert(r1[2] == s[2]);
    assert(r2[2] == s[2]);
    assert(r3[2] == s[2]);
    assert forall|i: int| 0 <= i < s.len() implies #[trigger] r4[i] == s[i] by {
        assert(fits_i32(s[2].x + (s[i].y - s[2].y)));
        assert(fits_i32(s[2].y - (s[i].x - s[2].x)));
        assert(fits_i32(r1[2].x + (r1[i].y - r1[2].y)));
        assert(fits_i32(r1[2].y - (r1[i].x - r1[2].x)));
        assert(fits_i32(r2[2].x + (r2[i].y - r2[2].y)));
        assert(fits_i32(r2[2].y - (r2[i].x - r2[2].x)));
        assert(fits_i32(r3[2].x + (r3[i].y - r3[2].y)));
        assert(fits_i32(r3[2].y - (r3[i].x - r3[2].x)));
    }
    assert(r4 =~= s);
}

/// A kind's pattern may be aligned to the start position and turned.
pub proof fn lemma_pattern_fits(kind: BlockType)
    ensures
        align_fits(pattern(kind)),
        rotate_fits(pattern(kind)),
{
    let s = pattern(kind);
    lemma_box4(s);
    assert(s.len() == 4);
    assert(forall|i: int| 0 <= i < 4 ==> 0 <= #[trigger] s[i].x <= 3 && 0 <= s[i].y <= 1);
}

/// Copies a list of points.
pub(crate) fn copy_points(v: &Vec<Point>) -> (r: Vec<Point>)
    ensures
        r@ == v@,
{
    let mut r: Vec<Point> = Vec::new();
    let mut i: usize = 0;
    while i < v.len()
        invariant
            i <= v.len(),
            r@ == v@.subrange(0, i as int),
        decreases v.len() - i,
    {
        r.push(v[i]);
        i += 1;
        assert(r@ =~= v@.subrange(0, i as int));
    }
    assert(v@.subrange(0, v.len() as int) =~= v@);
    r
}


/// A piece: its kind and colour, its four live cells, and the queued next piece.
#[derive(Debug)]
pub struct Block {
    pub block_type: BlockType,
    pub color: Color,
    pub points: Vec<Point>,
    pub next: Option<Box<Block>>,
}

/// A piece as it is spawned: the kind's pattern at the origin, with no lookahead.
pub open spec fn is_fresh(b: Block) -> bool {
    &&& b.points@ == pattern(b.block_type)
    &&& b.color == color_of(b.block_type)
    &&& b.next.is_none()
}

impl Block {
    /// Four live cells, and a lookahead (if any) of four cells with none of its own.
    pub open spec fn wf(&self) -> bool {
        &&& self.points.len() == 4
        &&& match self.next {
            Some(n) => n.points.len() == 4 && n.next.is_none(),
            None => true,
        }
    }

    /// `self` differs from `o` at most in its points.
    pub open spec fn same_but_points(&self, o: Block) -> bool {
        &&& self.block_type == o.block_type
        &&& self.color == o.color
        &&& self.next == o.next
    }

    pub fn new(block_type: BlockType) -> (r: Block)
        ensures
            r.block_type == block_type,
            is_fresh(r),
            r.wf(),
            align_fits(r.points@),
            rotate_fits(r.points@),
    {
        proof {
            lemma_pattern_fits(block_type);
        }
        let points = block_type.points();
        let color = block_type.color();
        Block { block_type, points, color, next: None }
    }

    /// Queues a freshly spawned piece of a random kind as the lookahead.
    pub fn load_next(&mut self)
        ensures
            final(self).block_type == old(self).block_type,
            final(self).color == old(self).color,
            final(self).points == old(self).points,
            final(self).next matches Some(n) && is_fresh(*n),
            old(self).points.len() == 4 ==> final(self).wf(),
    {
        self.next = Some(Box::new(Block::new(BlockType::random())));
    }

    /// Takes over the lookahead's kind, colour and cells, aligns them to the
    /// start position and queues a new lookahead.
    pub fn apply_next(&mut self)
        requires
            old(self).next is Some,
            align_fits(old(self).next.unwrap().points@),
        ensures
            final(self).block_type == old(self).next.unwrap().block_type,
            final(self).color == old(self).next.unwrap().color,
            final(self).points@ == aligned(old(self).next.unwrap().points@),
            final(self).next matches Some(n) && is_fresh(*n),
    {
        let mut block = self.next.take().unwrap();
        self.block_type = block.block_type;
        self.color = block.color;
        self.update(block.points_ref_mut());
        self.align_to_start();
        self.load_next();
    }

    /// Centres the bounding box over the columns and puts its bottom edge at row 0.
    pub fn align_to_start(&mut self)
        requires
            align_fits(old(self).points@),
        ensures
            final(self).same_but_points(*old(self)),
            final(self).points@ == aligned(old(self).points@),
            final(self).points.len() == old(self).points.len(),
            min_x(final(self).points@) == (COLUMNS as int) / 2 - box_width(old(self).points@) / 2,
            max_y(final(self).points@) == -1,
            box_width(final(self).points@) == box_width(old(self).points@),
            box_height(final(self).points@) == box_height(old(self).points@),
    {
        let range = self.range();
        let x: i64 = (COLUMNS / 2) as i64 - (range.width() / 2) as i64 - range.x() as i64;
        let y: i64 = -1 - (range.y() as i64 + range.height() as i64 - 1);
        proof {
            lemma_box_shift(self.points@, x as int, y as int);
            let s = self.points@;
            assert(fits_i32(s[0].x + x));
            lemma_box_bounds(s);
        }
        self.shift(x as i32, y as i32);
    }

    pub fn next_ref(&self) -> (r: &Option<Box<Block>>)
        ensures
            r == &self.next,
    {
        &self.next
    }

    pub fn next_type(&self) -> (r: Option<BlockType>)
        ensures
            r == match self.next {
                Some(n) => Some(n.block_type),
                None => None,
            },
    {
        match &self.next {
            Some(next) => Some(next.block_type),
            None => None,
        }
    }

    pub fn type_ref(&self) -> (r: &BlockType)
        ensures
            *r == self.block_type,
    {
        &self.block_type
    }

    pub fn color_ref(&self) -> (r: &Color)
        ensures
            *r == self.color,
    {
        &self.color
    }

    pub fn points_ref(&self) -> (r: &Vec<Point>)
        ensures
            r@ == self.points@,
    {
        &self.points
    }

    pub fn points_ref_mut(&mut self) -> (r: &mut Vec<Point>)
        ensures
            *r == old(self).points,
            final(self).same_but_points(*old(self)),
            final(self).points == *final(r),
    {
        &mut self.points
    }

    pub fn points(&self) -> (r: Vec<Point>)
        ensures
            r@ == self.points@,
    {
        copy_points(&self.points)
    }

    /// Replaces the live cells by `target_points`, which is left empty.
    pub fn update(&mut self, target_points: &mut Vec<Point>)
        ensures
            final(self).same_but_points(*old(self)),
            final(self).points@ == old(target_points)@,
            final(target_points)@.len() == 0,
    {
        self.points.truncate(0);
        self.points.append(target_points);
    }

    /// A quarter turn of every cell about the third one.
    pub fn rotate(&mut self)
        requires
            rotate_fits(old(self).points@),
        ensures
            final(self).same_but_points(*old(self)),
            final(self).points@ == rotated(old(self).points@),
    {
        let cx: i64 = self.points[2].x as i64;
        let cy: i64 = self.points[2].y as i64;
        let mut points: Vec<Point> = Vec::new();
        let mut i: usize = 0;
        while i < self.points.len()
            invariant
                i <= self.points.len(),
                rotate_fits(self.points@),
                cx == self.points@[2].x,
                cy == self.points@[2].y,
                points@ == rotated(self.points@).subrange(0, i as int),
            decreases self.points.len() - i,
        {
            let p = self.points[i];
            proof {
                assert(fits_i32(self.points@[2].x + (self.points@[i as int].y - self.points@[2].y)));
                assert(fits_i32(self.points@[2].y - (self.points@[i as int].x - self.points@[2].x)));
            }
            let nx: i64 = cx + (p.y as i64 - cy);
            let ny: i64 = cy - (p.x as i64 - cx);
            points.push(Point::new(nx as i32, ny as i32));
            i += 1;
            assert(points@ =~= rotated(self.points@).subrange(0, i as int));
        }
        assert(points@ =~= rotated(self.points@));
        self.update(&mut points);
    }

    /// Translates every cell by `(dx, dy)`.
    pub fn shift(&mut self, dx: i32, dy: i32)
        requires
            shift_fits(old(self).points@, dx as int, dy as int),
        ensures
            final(self).same_but_points(*old(self)),
            final(self).points@ == shifted(old(self).points@, dx as int, dy as int),
    {
        let mut points: Vec<Point> = Vec::new();
        let mut i: usize = 0;
        while i < self.points.len()
            invariant
                i <= self.points.len(),
                shift_fits(self.points@, dx as int, dy as int),
                points@ == shifted(self.points@, dx as int, dy as int).subrange(0, i as int),
            decreases self.points.len() - i,
        {
            let p = self.points[i];
            proof {
                assert(fits_i32(self.points@[i as int].x + dx));
            }
            points.push(Point::new(p.x + dx, p.y + dy));
            i += 1;
            assert(points@ =~= shifted(self.points@, dx as int, dy as int).subrange(0, i as int));
        }
        assert(points@ =~= shifted(self.points@, dx as int, dy as int));
        self.update(&mut points);
    }

    /// Moves by `(dx, dy)`, then moves back if the guard reports the new cells blocked.
    fn shift_or_rollback<G: Fn(&Vec<Point>) -> bool>(&mut self, dx: i32, dy: i32, rollback_gard: G)
        requires
            -1 <= dx <= 1,
            -1 <= dy <= 1,
            shift_fits(old(self).points@, dx as int, dy as int),
            guard_total(rollback_gard),
        ensures
            final(self).same_but_points(*old(self)),
            moved_by(rollback_gard, old(self).points@, dx as int, dy as int, final(self).points@),
    {
        let ghost s0 = self.points@;
        self.shift(dx, dy);
        let b = rollback_gard(&self.points);
        assert(guard_says(rollback_gard, shifted(s0, dx as int, dy as int), b));
        if b {
            proof {
                assert(shift_fits(self.points@, -dx as int, -dy as int));
                lemma_shift_compose(s0, dx as int, dy as int, -dx as int, -dy as int);
                lemma_shift_zero(s0);
            }
            self.shift(-dx, -dy);
        }
    }

    /// One column left, unless the guard reports the new cells blocked.
    pub fn left<G: Fn(&Vec<Point>) -> bool>(&mut self, rollback_gard: G)
        requires
            shift_fits(old(self).points@, -1, 0),
            guard_total(rollback_gard),
        ensures
            final(self).same_but_points(*old(self)),
            moved_by(rollback_gard, old(self).points@, -1, 0, final(self).points@),
    {
        self.shift_or_rollback(-1, 0, rollback_gard);
    }

    /// One column right, unless the guard reports the new cells blocked.
    pub fn right<G: Fn(&Vec<Point>) -> bool>(&mut self, rollback_gard: G)
        requires
            shift_fits(old(self).points@, 1, 0),
            guard_total(rollback_gard),
        ensures
            final(self).same_but_points(*old(self)),
            moved_by(rollback_gard, old(self).points@, 1, 0, final(self).points@),
    {
        self.shift_or_rollback(1, 0, rollback_gard);
    }

    /// One row down, unless the guard reports the new cells blocked.
    pub fn down<G: Fn(&Vec<Point>) -> bool>(&mut self, rollback_gard: G)
        requires
            shift_fits(old(self).points@, 0, 1),
            guard_total(rollback_gard),
        ensures
            final(self).same_but_points(*old(self)),
            moved_by(rollback_gard, old(self).points@, 0, 1, final(self).points@),
    {
        self.shift_or_rollback(0, 1, rollback_gard);
    }

    /// Descends row by row until the guard reports a blocked position or the
    /// bottom row is reached.
    pub fn drop<G: Fn(&Vec<Point>) -> bool>(&mut self, rollback_gard: G)
        requires
            box_fits(old(self).points@),
            max_y(old(self).points@) < i32::MAX,
            guard_total(rollback_gard),
        ensures
            final(self).same_but_points(*old(self)),
            exists|n: int|
                #[trigger] drop_stop(rollback_gard, old(self).points@, n) && final(self).points@
                    == shifted(old(self).points@, 0, n),
    {
        let ghost s0 = self.points@;
        let range = self.range();
        let start_y: i64 = range.y() as i64 + range.height() as i64;
        let mut y: i64 = start_y;
        let ghost mut n: int = 0;
        proof {
            lemma_shift_zero(s0);
            lemma_box_bounds(s0);
        }
        while y < ROWS as i64
            invariant
                start_y == max_y(s0) + 1,
                s0 == old(self).points@,
                s0.len() > 0,
                forall|i: int| 0 <= i < s0.len() ==> min_y(s0) <= #[trigger] s0[i].y <= max_y(s0),
                n == y - start_y,
                0 <= n,
                start_y < ROWS ==> y <= ROWS,
                start_y >= ROWS ==> n == 0,
                self.same_but_points(*old(self)),
                self.points@ == shifted(s0, 0, n),
                guard_total(rollback_gard),
                forall|j: int| 0 <= j < n ==> #[trigger] passes(rollback_gard, s0, j),
            decreases ROWS - y,
        {
            proof {
                assert(shift_fits(s0, 0, n));
                assert(shift_fits(s0, 0, n + 1));
                assert(shift_fits(self.points@, 0, 1));
                lemma_shift_compose(s0, 0, n, 0, 1);
            }
            self.shift(0, 1);
            let b = rollback_gard(&self.points);
            assert(guard_says(rollback_gard, shifted(s0, 0, n + 1), b));
            if b {
                proof {
                    assert(shift_fits(self.points@, 0, -1));
                    lemma_shift_compose(s0, 0, n + 1, 0, -1);
                }
                self.shift(0, -1);
                assert(drop_stop(rollback_gard, s0, n));
                return;
            }
            proof {
                assert(passes(rollback_gard, s0, n));
                n = n + 1;
            }
            y += 1;
        }
        assert(drop_stop(rollback_gard, s0, n));
    }

    /// The bounding box of the live cells.
    pub fn range(&self) -> (r: Rect)
        requires
            box_fits(self.points@),
        ensures
            r.x == min_x(self.points@),
            r.y == min_y(self.points@),
            r.width == box_width(self.points@),
            r.height == box_height(self.points@),
    {
        let mut min_x_: i32 = i32::MAX;
        let mut max_x_: i32 = i32::MIN;
        let mut min_y_: i32 = i32::MAX;
        let mut max_y_: i32 = i32::MIN;
        let mut i: usize = 0;
        while i < self.points.len()
            invariant
                i <= self.points.len(),
                min_x_ == min_x(self.points@.subrange(0, i as int)),
                max_x_ == max_x(self.points@.subrange(0, i as int)),
                min_y_ == min_y(self.points@.subrange(0, i as int)),
                max_y_ == max_y(self.points@.subrange(0, i as int)),
            decreases self.points.len() - i,
        {
            let b = self.points[i];
            assert(self.points@.subrange(0, i + 1).drop_last() =~= self.points@.subrange(0, i as int));
            if b.x > max_x_ {
                max_x_ = b.x;
            }
            if b.x < min_x_ {
                min_x_ = b.x;
            }
            if b.y > max_y_ {
                max_y_ = b.y;
            }
            if b.y < min_y_ {
                min_y_ = b.y;
            }
            i += 1;
        }
        assert(self.points@.subrange(0, i as int) =~= self.points@);
        let width: usize = (max_x_ as i64 - min_x_ as i64) as usize + 1;
        let height: usize = (max_y_ as i64 - min_y_ as i64) as usize + 1;
        Rect::new(min_x_, min_y_, width, height)
    }

    /// Keeps the piece within the columns and above the floor: a left overhang
    /// is shifted right, a right overhang left, and one below the bottom row up.
    pub fn adjust_bound(&mut self)
        requires
            clamp_fits(old(self).points@),
        ensures
            final(self).same_but_points(*old(self)),
            final(self).points@ == clamped(old(self).points@),
    {
        let ghost s0 = self.points@;
        let range = self.range();
        proof {
            lemma_box_bounds(s0);
            assert(s0.len() > 0);
            assert(min_x(s0) <= s0[0].x <= max_x(s0));
            assert(min_y(s0) <= s0[0].y <= max_y(s0));
        }
        self._adjust_left_bound(&range);
        proof {
            assert(shift_fits(self.points@, clamp_dx_right(s0), 0));
            lemma_shift_compose(s0, clamp_dx_left(s0), 0, clamp_dx_right(s0), 0);
        }
        self._adjust_right_bound(&range);
        proof {
            assert(shift_fits(self.points@, 0, clamp_dy(s0))) by {
                assert forall|i: int| 0 <= i < self.points@.len() implies fits_i32(
                    #[trigger] self.points@[i].x + 0,
                ) && fits_i32(self.points@[i].y + clamp_dy(s0)) by {
                    assert(self.points@[i].y == s0[i].y);
                    assert(min_y(s0) <= s0[i].y <= max_y(s0));
                }
            }
        }
        self._adjust_bottom_bound(&range);
    }

    fn _adjust_left_bound(&mut self, range: &Rect)
        requires
            range.x > i32::MIN,
            shift_fits(old(self).points@, left_dx(*range), 0),
        ensures
            final(self).same_but_points(*old(self)),
            final(self).points@ == shifted(old(self).points@, left_dx(*range), 0),
    {
        if range.x() < 0 {
            self.shift(-range.x(), 0);
        } else {
            proof {
                lemma_shift_zero(self.points@);
            }
        }
    }

    fn _adjust_right_bound(&mut self, range: &Rect)
        requires
            range.width <= i32::MAX as int + 1,
            shift_fits(old(self).points@, right_dx(*range), 0),
            fits_i32(right_dx(*range)),
        ensures
            final(self).same_but_points(*old(self)),
            final(self).points@ == shifted(old(self).points@, right_dx(*range), 0),
    {
        let right: i64 = range.x() as i64 + range.width() as i64;
        if right >= COLUMNS as i64 {
            self.shift((COLUMNS as i64 - right) as i32, 0);
        } else {
            proof {
                lemma_shift_zero(self.points@);
            }
        }
    }

    fn _adjust_bottom_bound(&mut self, range: &Rect)
        requires
            range.height <= i32::MAX as int + 1,
            shift_fits(old(self).points@, 0, bottom_dy(*range)),
            fits_i32(bottom_dy(*range)),
        ensures
            final(self).same_but_points(*old(self)),
            final(self).points@ == shifted(old(self).points@, 0, bottom_dy(*range)),
    {
        let bottom: i64 = range.y() as i64 + range.height() as i64;
        if bottom >= ROWS as i64 {
            self.shift(0, (ROWS as i64 - bottom) as i32);
        } else {
            proof {
                lemma_shift_zero(self.points@);
            }
        }
    }
}

pub open spec fn left_dx(r: Rect) -> int {
    if r.x < 0 {
        -r.x
    } else {
        0
    }
}

pub open spec fn right_dx(r: Rect) -> int {
    if r.x + r.width >= COLUMNS as int {
        COLUMNS as int - (r.x + r.width)
    } else {
        0
    }
}

pub open spec fn bottom_dy(r: Rect) -> int {
    if r.y + r.height >= ROWS as int {
        ROWS as int - (r.y + r.height)
    } else {
        0
    }
}

} // verus!

verus! {

impl Block {
    /// Same kind, colour and cells, and a lookahead (if any) alike in the same way.
    pub open spec fn looks_like(&self, o: Block) -> bool {
        &&& self.block_type == o.block_type
        &&& self.color == o.color
        &&& self.points@ == o.points@
        &&& match (self.next, o.next) {
            (None, None) => true,
            (Some(a), Some(b)) => a.block_type == b.block_type && a.color == b.color && a.points@
                == b.points@ && a.next.is_none(),
            _ => false,
        }
    }

    /// A copy of the piece and of its lookahead.
    pub fn snapshot(&self) -> (r: Block)
        ensures
            r.looks_like(*self),
    {
        let next = match &self.next {
            Some(n) => Some(
                Box::new(
                    Block {
                        block_type: n.block_type,
                        color: n.color,
                        points: copy_points(&n.points),
                        next: None,
                    },
                ),
            ),
            None => None,
        };
        Block {
            block_type: self.block_type,
            color: self.color,
            points: copy_points(&self.points),
            next,
        }
    }
}

} // verus!
