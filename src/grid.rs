//! The playfield: a fixed matrix of cell codes, `0` for empty.
use vstd::prelude::*;
use crate::geometry::{Point, Rect};
use crate::shape::{COLUMNS, ROWS, code_of};
use crate::block::{Block, box_fits, box_height, min_y};

verus! {

pub open spec fn zero_row() -> Seq<u8> {
    Seq::new(COLUMNS as nat, |i: int| 0u8)
}

pub open spec fn zero_rows(n: int) -> Seq<Seq<u8>> {
    Seq::new(n as nat, |i: int| zero_row())
}

/// `ROWS` rows of `COLUMNS` cells.
pub open spec fn rows_wf(rows: Seq<Seq<u8>>) -> bool {
    &&& rows.len() == ROWS
    &&& forall|r: int| 0 <= r < ROWS ==> (#[trigger] rows[r]).len() == COLUMNS
}

pub open spec fn in_field(p: Point) -> bool {
    0 <= p.x < COLUMNS && 0 <= p.y < ROWS
}

/// No point that lies on the board lands on an occupied cell.
pub open spec fn empty_at(rows: Seq<Seq<u8>>, pts: Seq<Point>) -> bool {
    forall|i: int|
        0 <= i < pts.len() && in_field(#[trigger] pts[i]) ==> rows[pts[i].y as int][pts[i].x as int]
            == 0
}

/// Point `p` cannot fall further: it is on the bottom row, or the cell
/// below it lies on the board and is occupied.
pub open spec fn rests_at(rows: Seq<Seq<u8>>, p: Point) -> bool {
    ||| p.y == ROWS - 1
    ||| 0 <= p.x < COLUMNS && -1 <= p.y && p.y + 1 < ROWS && rows[p.y + 1][p.x as int] != 0
}

/// The piece has come to rest.
pub open spec fn rests(rows: Seq<Seq<u8>>, pts: Seq<Point>) -> bool {
    exists|i: int| 0 <= i < pts.len() && #[trigger] rests_at(rows, pts[i])
}

/// Some point sits on column `x` of row `y`.
pub open spec fn covers(pts: Seq<Point>, x: int, y: int) -> bool {
    exists|i: int| 0 <= i < pts.len() && (#[trigger] pts[i]).x == x && pts[i].y == y
}

/// The rows with `code` written into every cell that a point covers.
pub open spec fn filled(rows: Seq<Seq<u8>>, pts: Seq<Point>, code: u8) -> Seq<Seq<u8>> {
    Seq::new(
        rows.len(),
        |y: int|
            Seq::new(
                rows[y].len(),
                |x: int|
                    if covers(pts, x, y) {
                        code
                    } else {
                        rows[y][x]
                    },
            ),
    )
}

/// A row with no empty cell.
pub open spec fn full(row: Seq<u8>) -> bool {
    forall|c: int| 0 <= c < row.len() ==> #[trigger] row[c] != 0
}

/// Row `r` deleted and an empty row put on top.
pub open spec fn removed(rows: Seq<Seq<u8>>, r: int) -> Seq<Seq<u8>> {
    seq![zero_row()] + rows.subrange(0, r) + rows.subrange(r + 1, rows.len() as int)
}

/// The first `n` rows without the full ones among the rows `lo..hi`.
pub open spec fn kept(rows: Seq<Seq<u8>>, lo: int, hi: int, n: int) -> Seq<Seq<u8>>
    decreases n,
{
    if n <= 0 {
        seq![]
    } else {
        let k = kept(rows, lo, hi, n - 1);
        if lo <= n - 1 < hi && full(rows[n - 1]) {
            k
        } else {
            k.push(rows[n - 1])
        }
    }
}

/// Every full row among the rows `lo..hi` cleared, the rows above it moved down.
pub open spec fn cleared(rows: Seq<Seq<u8>>, lo: int, hi: int) -> Seq<Seq<u8>> {
    let k = kept(rows, lo, hi, rows.len() as int);
    zero_rows(rows.len() - k.len()) + k
}

/// The full rows among `lo..hi` below row `n`, top to bottom.
pub open spec fn full_rows(rows: Seq<Seq<u8>>, lo: int, hi: int, n: int) -> Seq<usize>
    decreases n,
{
    if n <= 0 {
        seq![]
    } else {
        let f = full_rows(rows, lo, hi, n - 1);
        if lo <= n - 1 < hi && full(rows[n - 1]) {
            f.push((n - 1) as usize)
        } else {
            f
        }
    }
}

proof fn lemma_kept_below(rows: Seq<Seq<u8>>, lo: int, hi: int, n: int)
    requires
        0 <= n <= lo,
        n <= rows.len(),
    ensures
        kept(rows, lo, hi, n) == rows.subrange(0, n),
    decreases n,
{
    if n > 0 {
        lemma_kept_below(rows, lo, hi, n - 1);
        assert(rows.subrange(0, n - 1).push(rows[n - 1]) =~= rows.subrange(0, n));
    } else {
        assert(rows.subrange(0, 0) =~= seq![]);
    }
}

proof fn lemma_kept_above(rows: Seq<Seq<u8>>, lo: int, hi: int, m: int, n: int)
    requires
        0 <= m <= n <= rows.len(),
        hi <= m || m == n,
    ensures
        kept(rows, lo, hi, n) == kept(rows, lo, hi, m) + rows.subrange(m, n),
    decreases n,
{
    if n > m {
        lemma_kept_above(rows, lo, hi, m, n - 1);
        assert(kept(rows, lo, hi, m) + rows.subrange(m, n - 1).push(rows[n - 1]) =~= kept(
            rows,
            lo,
            hi,
            m,
        ) + rows.subrange(m, n));
    } else {
        assert(kept(rows, lo, hi, m) + rows.subrange(m, m) =~= kept(rows, lo, hi, m));
    }
}

/// Deleting a full row: the rows above it move down by one, the rows below
/// stay, row 0 is empty, and the deleted row reads empty when the row above it was.
pub proof fn lemma_remove_full_row(rows: Seq<Seq<u8>>, r: int)
    requires
        rows_wf(rows),
        0 <= r < ROWS,
        full(rows[r]),
    ensures
        rows_wf(removed(rows, r)),
        removed(rows, r)[0] == zero_row(),
        forall|i: int| 1 <= i <= r ==> #[trigger] removed(rows, r)[i] == rows[i - 1],
        forall|i: int| r < i < ROWS ==> #[trigger] removed(rows, r)[i] == rows[i],
        r == 0 || rows[r - 1] == zero_row() ==> removed(rows, r)[r] == zero_row(),
{
    let n = removed(rows, r);
    assert(n.len() == ROWS);
    assert forall|i: int| 0 <= i < ROWS implies (#[trigger] n[i]).len() == COLUMNS by {
        if i > 0 {
            assert(n[i] == if i <= r { rows[i - 1] } else { rows[i] });
        }
    }
    assert forall|i: int| 1 <= i <= r implies #[trigger] n[i] == rows[i - 1] by {}
    assert forall|i: int| r < i < ROWS implies #[trigger] n[i] == rows[i] by {}
}

/// Number of occupied cells in a row.
pub open spec fn row_count(row: Seq<u8>) -> int
    decreases row.len(),
{
    if row.len() == 0 {
        0
    } else {
        row_count(row.drop_last()) + if row.last() != 0 {
            1int
        } else {
            0int
        }
    }
}

/// Number of occupied cells in a field.
pub open spec fn cell_count(rows: Seq<Seq<u8>>) -> int
    decreases rows.len(),
{
    if rows.len() == 0 {
        0
    } else {
        cell_count(rows.drop_last()) + row_count(rows.last())
    }
}

proof fn lemma_row_count_full(row: Seq<u8>)
    requires
        full(row),
    ensures
        row_count(row) == row.len(),
    decreases row.len(),
{
    if row.len() > 0 {
        assert(row.last() == row[row.len() - 1]);
        assert(full(row.drop_last())) by {
            assert forall|c: int| 0 <= c < row.drop_last().len() implies #[trigger] row.drop_last()[c]
                != 0 by {
                assert(row.drop_last()[c] == row[c]);
            }
        }
        lemma_row_count_full(row.drop_last());
    }
}

proof fn lemma_row_count_zero(n: int)
    requires
        0 <= n <= COLUMNS,
    ensures
        row_count(zero_row().subrange(0, n)) == 0,
    decreases n,
{
    if n > 0 {
        assert(zero_row().subrange(0, n).drop_last() =~= zero_row().subrange(0, n - 1));
        lemma_row_count_zero(n - 1);
    }
}

proof fn lemma_cell_count_concat(a: Seq<Seq<u8>>, b: Seq<Seq<u8>>)
    ensures
        cell_count(a + b) == cell_count(a) + cell_count(b),
    decreases b.len(),
{
    if b.len() == 0 {
        assert(a + b =~= a);
    } else {
        assert((a + b).drop_last() =~= a + b.drop_last());
        assert((a + b).last() == b.last());
        lemma_cell_count_concat(a, b.drop_last());
    }
}

/// Deleting a full row takes exactly one row's worth of occupied cells off
/// the field: the row put on top is empty.
pub proof fn lemma_remove_full_row_count(rows: Seq<Seq<u8>>, r: int)
    requires
        rows_wf(rows),
        0 <= r < ROWS,
        full(rows[r]),
    ensures
        cell_count(removed(rows, r)) == cell_count(rows) - COLUMNS,
{
    let top = seq![zero_row()];
    let above = rows.subrange(0, r);
    let below = rows.subrange(r + 1, rows.len() as int);
    lemma_cell_count_concat(top + above, below);
    lemma_cell_count_concat(top, above);
    assert(top.drop_last().len() == 0);
    assert(cell_count(top.drop_last()) == 0);
    assert(top.last() == zero_row());
    assert(zero_row().subrange(0, COLUMNS as int) =~= zero_row());
    lemma_row_count_zero(COLUMNS as int);
    assert(cell_count(top) == 0);
    lemma_row_count_full(rows[r]);
    assert(rows =~= above + seq![rows[r]] + below);
    lemma_cell_count_concat(above + seq![rows[r]], below);
    lemma_cell_count_concat(above, seq![rows[r]]);
    assert(seq![rows[r]].drop_last().len() == 0);
    assert(cell_count(seq![rows[r]].drop_last()) == 0);
    assert(seq![rows[r]].last() == rows[r]);
    assert(cell_count(seq![rows[r]]) == row_count(rows[r]));
}

/// Filling a piece's cells and then asking about the same cells: occupied
/// wherever one of them lies on the board; a cell off the board is always free.
pub proof fn lemma_fill_then_query(rows: Seq<Seq<u8>>, pts: Seq<Point>, code: u8, q: Point)
    requires
        rows_wf(rows),
        code != 0,
    ensures
        (exists|i: int| 0 <= i < pts.len() && in_field(#[trigger] pts[i])) ==> !empty_at(
            filled(rows, pts, code),
            pts,
        ),
        !in_field(q) ==> empty_at(filled(rows, pts, code), seq![q]),
{
    let f = filled(rows, pts, code);
    if exists|i: int| 0 <= i < pts.len() && in_field(#[trigger] pts[i]) {
        let i = choose|i: int| 0 <= i < pts.len() && in_field(#[trigger] pts[i]);
        let p = pts[i];
        assert(covers(pts, p.x as int, p.y as int));
        assert(f[p.y as int][p.x as int] == code);
    }
}

/// A fresh row of empty cells.
fn new_row() -> (r: Vec<u8>)
    ensures
        r@ == zero_row(),
{
    let mut r: Vec<u8> = Vec::new();
    let mut i: usize = 0;
    while i < COLUMNS
        invariant
            i <= COLUMNS,
            r@ == Seq::new(i as nat, |j: int| 0u8),
        decreases COLUMNS - i,
    {
        r.push(0);
        i += 1;
        assert(r@ =~= Seq::new(i as nat, |j: int| 0u8));
    }
    r
}

fn copy_row(v: &Vec<u8>) -> (r: Vec<u8>)
    ensures
        r@ == v@,
{
    let mut r: Vec<u8> = Vec::new();
    let mut i: usize = 0;
    while i < v.len()
        invariant
            i <= v.len(),
            r@ == v@.subrange(0, i as int),
        decreases v.len() - i,
    {
        r.push(v[i]);
        i += 1;
        assert(r@ =~= v@.subrange(0, i as int));
    }
    assert(v@.subrange(0, v.len() as int) =~= v@);
    r
}

pub open spec fn rows_of(v: Seq<Vec<u8>>) -> Seq<Seq<u8>> {
    Seq::new(v.len(), |i: int| v[i]@)
}

#[derive(Debug)]
pub struct Grid {
    pub data: Vec<Vec<u8>>,
}

impl Grid {
    /// The cells, row by row.
    pub open spec fn rows(&self) -> Seq<Seq<u8>> {
        rows_of(self.data@)
    }

    pub open spec fn wf(&self) -> bool {
        rows_wf(self.rows())
    }

    pub fn new() -> (r: Grid)
        ensures
            r.wf(),
            r.rows() == zero_rows(ROWS as int),
    {
        let mut data: Vec<Vec<u8>> = Vec::new();
        let mut i: usize = 0;
        while i < ROWS
            invariant
                i <= ROWS,
                data.len() == i,
                forall|j: int| 0 <= j < i ==> (#[trigger] data@[j])@ == zero_row(),
            decreases ROWS - i,
        {
            data.push(new_row());
            i += 1;
        }
        assert(rows_of(data@) =~= zero_rows(ROWS as int));
        Grid { data }
    }

    pub fn get_data(&self) -> (r: &Vec<Vec<u8>>)
        ensures
            r == &self.data,
    {
        &self.data
    }

    /// A copy of the field.
    pub fn snapshot(&self) -> (r: Grid)
        ensures
            r.rows() == self.rows(),
    {
        let mut data: Vec<Vec<u8>> = Vec::new();
        let mut i: usize = 0;
        while i < self.data.len()
            invariant
                i <= self.data.len(),
                data.len() == i,
                forall|j: int| 0 <= j < i ==> (#[trigger] data@[j])@ == self.data@[j]@,
            decreases self.data.len() - i,
        {
            data.push(copy_row(&self.data[i]));
            i += 1;
        }
        assert(rows_of(data@) =~= self.rows());
        Grid { data }
    }

    fn _check_index_range(&self, point: &Point) -> (r: bool)
        ensures
            r == in_field(*point),
    {
        point.y >= 0 && point.y < ROWS as i32 && point.x >= 0 && point.x < COLUMNS as i32
    }

    fn set_cell(&mut self, x: usize, y: usize, v: u8)
        requires
            old(self).wf(),
            x < COLUMNS,
            y < ROWS,
        ensures
            final(self).wf(),
            final(self).rows() == old(self).rows().update(
                y as int,
                old(self).rows()[y as int].update(x as int, v),
            ),
    {
        let ghost r0 = self.rows();
        let mut row = self.data.remove(y);
        assert(row@ == r0[y as int]);
        row[x] = v;
        self.data.insert(y, row);
        assert(self.rows() =~= r0.update(y as int, r0[y as int].update(x as int, v)));
    }

    /// Writes the piece's code into each of its cells that lies on the board.
    pub fn fill(&mut self, block: &Block)
        requires
            old(self).wf(),
        ensures
            final(self).wf(),
            final(self).rows() == filled(old(self).rows(), block.points@, code_of(block.block_type)),
    {
        let ghost r0 = self.rows();
        let code = block.block_type.index();
        let pts = &block.points;
        let mut i: usize = 0;
        proof {
            assert(filled(r0, pts@.subrange(0, 0), code) =~~= r0);
        }
        while i < pts.len()
            invariant
                i <= pts.len(),
                self.wf(),
                rows_wf(r0),
                self.rows() == filled(r0, pts@.subrange(0, i as int), code),
            decreases pts.len() - i,
        {
            let point = &pts[i];
            let ghost cur = self.rows();
            let ghost sub = pts@.subrange(0, i as int);
            let ghost sub1 = pts@.subrange(0, i + 1);
            proof {
                assert forall|x: int, y: int| covers(sub1, x, y) <==> covers(sub, x, y) || (
                pts@[i as int].x == x && pts@[i as int].y == y) by {
                    if covers(sub1, x, y) {
                        let j = choose|j: int|
                            0 <= j < sub1.len() && (#[trigger] sub1[j]).x == x && sub1[j].y == y;
                        if j < i {
                            assert(sub[j] == sub1[j]);
                        }
                    }
                    if covers(sub, x, y) {
                        let j = choose|j: int|
                            0 <= j < sub.len() && (#[trigger] sub[j]).x == x && sub[j].y == y;
                        assert(sub1[j] == sub[j]);
                    }
                    if pts@[i as int].x == x && pts@[i as int].y == y {
                        assert(sub1[i as int] == pts@[i as int]);
                    }
                }
            }
            if self._check_index_range(point) {
                self.set_cell(point.x as usize, point.y as usize, code);
                assert(self.rows() =~~= filled(r0, sub1, code));
            } else {
                assert(self.rows() =~~= filled(r0, sub1, code));
            }
            i += 1;
        }
        assert(pts@.subrange(0, pts.len() as int) =~= pts@);
    }

    /// Whether the piece is resting: a point on the bottom row, or an
    /// occupied cell right below a point.
    pub fn is_empty_below(&self, points: &Vec<Point>) -> (r: bool)
        requires
            self.wf(),
        ensures
            r == !rests(self.rows(), points@),
    {
        let mut i: usize = 0;
        while i < points.len()
            invariant
                i <= points.len(),
                self.wf(),
                forall|j: int| 0 <= j < i ==> !#[trigger] rests_at(self.rows(), points@[j]),
            decreases points.len() - i,
        {
            let point = &points[i];
            if point.y == ROWS as i32 - 1 {
                assert(rests_at(self.rows(), points@[i as int]));
                return false;
            }
            if point.y >= -1 && point.y < ROWS as i32 - 1 && point.x >= 0 && point.x < COLUMNS as i32 {
                assert(self.data@[point.y + 1]@ == self.rows()[point.y + 1]);
                if self.data[(point.y + 1) as usize][point.x as usize] > 0 {
                    assert(rests_at(self.rows(), points@[i as int]));
                    return false;
                }
            }
            proof {
                if 0 <= point.x < COLUMNS && -1 <= point.y && point.y + 1 < ROWS {
                    assert(self.data@[point.y + 1]@ == self.rows()[point.y + 1]);
                }
            }
            i += 1;
        }
        true
    }

    /// No point on the board lands on an occupied cell.
    pub fn is_empty(&self, points: &Vec<Point>) -> (r: bool)
        requires
            self.wf(),
        ensures
            r == empty_at(self.rows(), points@),
    {
        let mut i: usize = 0;
        while i < points.len()
            invariant
                i <= points.len(),
                self.wf(),
                forall|j: int|
                    0 <= j < i && in_field(#[trigger] points@[j]) ==> self.rows()[points@[j].y as int][points@[j].x as int]
                        == 0,
            decreases points.len() - i,
        {
            let point = &points[i];
            if self._check_index_range(point) {
                assert(self.data@[point.y as int]@ == self.rows()[point.y as int]);
                if self.data[point.y as usize][point.x as usize] > 0 {
                    return false;
                }
            }
            i += 1;
        }
        true
    }

    fn _is_full(&self, r_index: usize) -> (r: bool)
        requires
            self.wf(),
            r_index < ROWS,
        ensures
            r == full(self.rows()[r_index as int]),
    {
        let row = &self.data[r_index];
        assert(row@ == self.rows()[r_index as int]);
        let mut c: usize = 0;
        while c < row.len()
            invariant
                c <= row.len(),
                row@ == self.rows()[r_index as int],
                forall|j: int| 0 <= j < c ==> #[trigger] row@[j] != 0,
            decreases row.len() - c,
        {
            if row[c] == 0 {
                assert(row@[c as int] == 0);
                return false;
            }
            c += 1;
        }
        true
    }

    /// Deletes row `r_index` and puts an empty row on top.
    pub fn remove_row(&mut self, r_index: usize)
        requires
            old(self).wf(),
            r_index < ROWS,
        ensures
            final(self).wf(),
            final(self).rows() == removed(old(self).rows(), r_index as int),
    {
        let ghost r0 = self.rows();
        self.data.remove(r_index);
        self.data.insert(0, new_row());
        let ghost n = removed(r0, r_index as int);
        assert(self.rows() =~= n);
        assert forall|i: int| 0 <= i < ROWS implies (#[trigger] n[i]).len() == COLUMNS by {
            if i > 0 {
                assert(n[i] == if i <= r_index { r0[i - 1] } else { r0[i] });
            }
        }
    }

    /// The full rows among those that `range` spans, top to bottom.
    pub fn find_full_rows(&self, range: &Rect) -> (r: Vec<usize>)
        requires
            self.wf(),
        ensures
            r@ == full_rows(self.rows(), range.y as int, range.y + range.height, ROWS as int),
    {
        let lo: i64 = range.y as i64;
        let ghost hi: int = range.y + range.height;
        let mut rows: Vec<usize> = Vec::new();
        let mut r: usize = 0;
        while r < ROWS
            invariant
                r <= ROWS,
                self.wf(),
                lo == range.y,
                hi == range.y + range.height,
                rows@ == full_rows(self.rows(), lo as int, hi, r as int),
            decreases ROWS - r,
        {
            if lo <= r as i64 && ((r as i64 - lo) as usize) < range.height && self._is_full(r) {
                rows.push(r);
            }
            r += 1;
        }
        rows
    }

    /// Clears every full row among those the piece's bounding box spans,
    /// moving the rows above each cleared one down.
    pub fn erase_full_row(&mut self, block: &Block)
        requires
            old(self).wf(),
            box_fits(block.points@),
        ensures
            final(self).wf(),
            final(self).rows() == cleared(
                old(self).rows(),
                min_y(block.points@),
                min_y(block.points@) + box_height(block.points@),
            ),
    {
        let ghost r0 = self.rows();
        let range = block.range();
        let lo: i64 = range.y() as i64;
        let hi: i64 = range.y() as i64 + range.height() as i64;
        let start: i64 = if lo < 0 { 0 } else if lo > ROWS as i64 { ROWS as i64 } else { lo };
        let end: i64 = if hi > ROWS as i64 {
            ROWS as i64
        } else if hi < start {
            start
        } else {
            hi
        };
        proof {
            if start > 0 {
                lemma_kept_below(r0, lo as int, hi as int, start as int);
            } else {
                assert(kept(r0, lo as int, hi as int, 0) =~= r0.subrange(0, 0));
            }
            assert(r0.subrange(0, start as int) + r0.subrange(start as int, ROWS as int) =~= r0);
            assert(zero_rows(0) + r0.subrange(0, start as int) =~= r0.subrange(0, start as int));
        }
        let mut r: i64 = start;
        while r < end
            invariant
                0 <= start <= r <= end <= ROWS,
                lo <= start || start == 0 || start == ROWS,
                end == ROWS ==> hi >= ROWS,
                start == 0 ==> lo <= 0,
                end <= hi || end == start || end == ROWS,
                end < ROWS ==> hi <= end,
                self.wf(),
                rows_wf(r0),
                kept(r0, lo as int, hi as int, r as int).len() <= r,
                self.rows() == zero_rows(r - kept(r0, lo as int, hi as int, r as int).len()) + kept(
                    r0,
                    lo as int,
                    hi as int,
                    r as int,
                ) + r0.subrange(r as int, ROWS as int),
            decreases end - r,
        {
            let ghost k = kept(r0, lo as int, hi as int, r as int);
            let ghost z = zero_rows(r - k.len());
            let ghost cur = self.rows();
            assert(cur[r as int] == r0[r as int]);
            assert(lo <= r < hi);
            if self._is_full(r as usize) {
                self.remove_row(r as usize);
                proof {
                    assert(kept(r0, lo as int, hi as int, r + 1) == k);
                    assert(removed(cur, r as int) =~= zero_rows(r + 1 - k.len()) + k + r0.subrange(
                        r + 1,
                        ROWS as int,
                    ));
                }
            } else {
                proof {
                    assert(kept(r0, lo as int, hi as int, r + 1) == k.push(r0[r as int]));
                    assert(cur =~= zero_rows(r + 1 - (k.len() + 1)) + k.push(r0[r as int]) + r0.subrange(
                        r + 1,
                        ROWS as int,
                    ));
                }
            }
            r += 1;
        }
        proof {
            lemma_kept_above(r0, lo as int, hi as int, end as int, ROWS as int);
            assert(self.rows() =~= cleared(r0, lo as int, hi as int));
        }
    }
}

} // verus!
