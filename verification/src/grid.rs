use crate::snake::Point;
use vstd::prelude::*;

verus! {

/// One value per cell of a `w` by `h` board.
pub struct Grid<T> {
    w: u16,
    h: u16,
    rows: Vec<Vec<T>>,
}

/// The sum of a row of numbers.
pub open spec fn row_sum(r: Seq<u16>) -> int
    decreases r.len(),
{
    if r.len() == 0 {
        0
    } else {
        row_sum(r.drop_last()) + r.last()
    }
}

/// The sum of all rows of numbers.
pub open spec fn rows_sum(rows: Seq<Vec<u16>>) -> int
    decreases rows.len(),
{
    if rows.len() == 0 {
        0
    } else {
        rows_sum(rows.drop_last()) + row_sum(rows.last()@)
    }
}

proof fn lemma_row_sum_update(r: Seq<u16>, i: int, v: u16)
    requires
        0 <= i < r.len(),
    ensures
        row_sum(r.update(i, v)) == row_sum(r) - r[i] + v,
        row_sum(r) >= 0,
    decreases r.len(),
{
    let u = r.update(i, v);
    if i == r.len() - 1 {
        assert(u.drop_last() =~= r.drop_last());
    } else {
        lemma_row_sum_update(r.drop_last(), i, v);
        assert(u.drop_last() =~= r.drop_last().update(i, v));
    }
    lemma_row_sum_nonneg(r);
}

proof fn lemma_row_sum_nonneg(r: Seq<u16>)
    ensures
        row_sum(r) >= 0,
    decreases r.len(),
{
    if r.len() > 0 {
        lemma_row_sum_nonneg(r.drop_last());
    }
}

proof fn lemma_rows_sum_update(rows: Seq<Vec<u16>>, y: int, row: Vec<u16>)
    requires
        0 <= y < rows.len(),
    ensures
        rows_sum(rows.update(y, row)) == rows_sum(rows) - row_sum(rows[y]@) + row_sum(row@),
    decreases rows.len(),
{
    let u = rows.update(y, row);
    if y == rows.len() - 1 {
        assert(u.drop_last() =~= rows.drop_last());
    } else {
        lemma_rows_sum_update(rows.drop_last(), y, row);
        assert(u.drop_last() =~= rows.drop_last().update(y, row));
    }
}

proof fn lemma_rows_sum_nonneg(rows: Seq<Vec<u16>>)
    ensures
        rows_sum(rows) >= 0,
    decreases rows.len(),
{
    if rows.len() > 0 {
        lemma_rows_sum_nonneg(rows.drop_last());
        lemma_row_sum_nonneg(rows.last()@);
    }
}

impl<T: Copy> Grid<T> {
    /// The rows have the board's dimensions.
    pub closed spec fn wf(&self) -> bool {
        &&& self.rows@.len() == self.h
        &&& forall|y: int| 0 <= y < self.h ==> (#[trigger] self.rows@[y])@.len() == self.w
    }

    /// The width of the board.
    pub closed spec fn width(&self) -> u16 {
        self.w
    }

    /// The height of the board.
    pub closed spec fn height(&self) -> u16 {
        self.h
    }

    /// The value at `p`, which lies on the board.
    pub closed spec fn at(&self, p: Point) -> T {
        self.rows@[p.y as int]@[p.x as int]
    }

    /// A `w` by `h` grid holding `fill` everywhere.
    pub fn new(w: u16, h: u16, fill: T) -> (g: Grid<T>)
        ensures
            g.wf(),
            g.width() == w,
            g.height() == h,
            forall|p: Point| p.x < w && p.y < h ==> #[trigger] g.at(p) == fill,
    {
        let mut rows: Vec<Vec<T>> = Vec::new();
        let mut y: u16 = 0;
        while y < h
            invariant
                rows@.len() == y,
                y <= h,
                forall|j: int| 0 <= j < y ==> (#[trigger] rows@[j])@.len() == w,
                forall|j: int, i: int| 0 <= j < y && 0 <= i < w ==> #[trigger] rows@[j]@[i] == fill,
            decreases h - y,
        {
            let mut row: Vec<T> = Vec::new();
            let mut x: u16 = 0;
            while x < w
                invariant
                    row@.len() == x,
                    x <= w,
                    forall|i: int| 0 <= i < x ==> row@[i] == fill,
                decreases w - x,
            {
                row.push(fill);
                x = x + 1;
            }
            rows.push(row);
            y = y + 1;
        }
        Grid { w, h, rows }
    }

    /// The value at `p`, which lies on the board.
    pub fn get(&self, p: Point) -> (r: T)
        requires
            self.wf(),
            p.x < self.width(),
            p.y < self.height(),
        ensures
            r == self.at(p),
    {
        self.rows[p.y as usize][p.x as usize]
    }

    fn replace(&mut self, p: Point, v: T)
        requires
            old(self).wf(),
            p.x < old(self).w,
            p.y < old(self).h,
        ensures
            final(self).wf(),
            final(self).w == old(self).w,
            final(self).h == old(self).h,
            final(self).rows@ == old(self).rows@.update(p.y as int, final(self).rows@[p.y as int]),
            final(self).rows@[p.y as int]@ == old(self).rows@[p.y as int]@.update(p.x as int, v),
    {
        let y = p.y as usize;
        let x = p.x as usize;
        let mut row: Vec<T> = Vec::new();
        let mut i: usize = 0;
        while i < self.rows[y].len()
            invariant
                self.wf(),
                y < self.rows@.len(),
                i <= self.rows@[y as int]@.len(),
                row@ == self.rows@[y as int]@.take(i as int),
            decreases self.rows@[y as int]@.len() - i,
        {
            row.push(self.rows[y][i]);
            i = i + 1;
            assert(row@ =~= self.rows@[y as int]@.take(i as int));
        }
        assert(row@ =~= old(self).rows@[y as int]@);
        row.set(x, v);
        self.rows.set(y, row);
        assert(self.rows@ =~= old(self).rows@.update(p.y as int, self.rows@[p.y as int]));
    }

    /// Sets the value at `p`, which lies on the board.
    pub fn set(&mut self, p: Point, v: T)
        requires
            old(self).wf(),
            p.x < old(self).width(),
            p.y < old(self).height(),
        ensures
            final(self).wf(),
            final(self).width() == old(self).width(),
            final(self).height() == old(self).height(),
            final(self).at(p) == v,
            forall|q: Point| q != p && q.x < old(self).width() && q.y < old(self).height() ==> #[trigger] final(self).at(q)
                == old(self).at(q),
    {
        self.replace(p, v);
        proof {
            assert forall|q: Point| q != p && q.x < old(self).width() && q.y < old(self).height() implies #[trigger] self.at(q)
                == old(self).at(q) by {
                if q.y != p.y {
                    assert(self.rows@[q.y as int] == old(self).rows@[q.y as int]);
                }
            }
        }
    }
}

impl Grid<u16> {
    /// The sum of all values.
    pub closed spec fn total(&self) -> int {
        rows_sum(self.rows@)
    }

    /// The sum of the values is at least zero.
    pub proof fn lemma_total_nonneg(&self)
        ensures
            self.total() >= 0,
    {
        lemma_rows_sum_nonneg(self.rows@);
    }

    /// Sets `p` to `v`, telling how the sum changes.
    pub fn set_counted(&mut self, p: Point, v: u16)
        requires
            old(self).wf(),
            p.x < old(self).width(),
            p.y < old(self).height(),
        ensures
            final(self).wf(),
            final(self).width() == old(self).width(),
            final(self).height() == old(self).height(),
            final(self).at(p) == v,
            forall|q: Point| q != p && q.x < old(self).width() && q.y < old(self).height() ==> #[trigger] final(self).at(q)
                == old(self).at(q),
            final(self).total() == old(self).total() - old(self).at(p) + v,
    {
        let ghost rows0 = self.rows@;
        self.replace(p, v);
        proof {
            let y = p.y as int;
            lemma_row_sum_update(rows0[y]@, p.x as int, v);
            lemma_rows_sum_update(rows0, y, self.rows@[y]);
            assert forall|q: Point| q != p && q.x < old(self).width() && q.y < old(self).height() implies #[trigger] self.at(q)
                == old(self).at(q) by {
                if q.y != p.y {
                    assert(self.rows@[q.y as int] == old(self).rows@[q.y as int]);
                }
            }
        }
    }
}

} // verus!
