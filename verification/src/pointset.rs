use crate::snake::Point;
use vstd::prelude::*;

verus! {

/// A set of cells of a `width` by `height` board, kept as one flag per cell.
#[derive(Clone, Debug, PartialEq, Eq)]
pub struct PointSet {
    width: u16,
    height: u16,
    rows: Vec<Vec<bool>>,
}

impl PointSet {
    /// The rows have the board's dimensions.
    pub closed spec fn wf(&self) -> bool {
        &&& self.rows@.len() == self.height
        &&& forall|y: int| 0 <= y < self.height ==> (#[trigger] self.rows@[y])@.len() == self.width
    }

    /// The width of the board the set lives on.
    pub closed spec fn w(&self) -> u16 {
        self.width
    }

    /// The height of the board the set lives on.
    pub closed spec fn h(&self) -> u16 {
        self.height
    }

    /// Whether `p` is in the set.
    pub closed spec fn has(&self, p: Point) -> bool {
        p.x < self.width && p.y < self.height && self.rows@[p.y as int]@[p.x as int]
    }

    /// How many flags are set.
    pub closed spec fn size(&self) -> nat {
        rows_count(self.rows@)
    }

    /// The set as a set of points.
    pub open spec fn view(&self) -> Set<Point> {
        Set::new(|p: Point| self.has(p))
    }

    /// Only cells of the board can be in the set.
    pub(crate) proof fn lemma_has_on_board(&self, p: Point)
        ensures
            self.has(p) ==> p.x < self.w() && p.y < self.h(),
    {
    }

    /// The width of the board the set lives on.
    pub fn width(&self) -> (r: u16)
        ensures
            r == self.w(),
    {
        self.width
    }

    /// The height of the board the set lives on.
    pub fn height(&self) -> (r: u16)
        ensures
            r == self.h(),
    {
        self.height
    }

    /// The empty set on a `width` by `height` board.
    pub fn new(width: u16, height: u16) -> (s: PointSet)
        ensures
            s.wf(),
            s.w() == width,
            s.h() == height,
            forall|p: Point| !s.has(p),
            s@ == Set::<Point>::empty(),
            s.size() == 0,
    {
        let mut rows: Vec<Vec<bool>> = Vec::new();
        let mut y: u16 = 0;
        while y < height
            invariant
                rows@.len() == y,
                y <= height,
                forall|j: int| 0 <= j < y ==> (#[trigger] rows@[j])@.len() == width,
                forall|j: int, i: int| 0 <= j < y && 0 <= i < width ==> !#[trigger] rows@[j]@[i],
            decreases height - y,
        {
            let mut row: Vec<bool> = Vec::new();
            let mut x: u16 = 0;
            while x < width
                invariant
                    row@.len() == x,
                    x <= width,
                    forall|i: int| 0 <= i < x ==> !row@[i],
                decreases width - x,
            {
                row.push(false);
                x = x + 1;
            }
            rows.push(row);
            y = y + 1;
        }
        let s = PointSet { width, height, rows };
        assert(s@ =~= Set::<Point>::empty());
        proof {
            lemma_rows_count_zero(s.rows@, width);
        }
        s
    }

    /// Whether `p` is in the set; a point off the board never is.
    pub fn contains(&self, p: Point) -> (r: bool)
        requires
            self.wf(),
        ensures
            r == self.has(p),
    {
        if p.x < self.width && p.y < self.height {
            self.rows[p.y as usize][p.x as usize]
        } else {
            false
        }
    }

    /// Sets the flag of `p`, which must lie on the board.
    fn set_flag(&mut self, p: Point, v: bool)
        requires
            old(self).wf(),
            p.x < old(self).w(),
            p.y < old(self).h(),
        ensures
            final(self).wf(),
            final(self).w() == old(self).w(),
            final(self).h() == old(self).h(),
            final(self).has(p) == v,
            forall|q: Point| q != p ==> final(self).has(q) == old(self).has(q),
            final(self).size() + (if old(self).has(p) { 1nat } else { 0nat }) == old(self).size() + (if v { 1nat } else { 0nat }),
    {
        let y = p.y as usize;
        let x = p.x as usize;
        let mut row = self.rows[y].clone();
        assert(row@ =~= old(self).rows@[y as int]@);
        row.set(x, v);
        self.rows.set(y, row);
        proof {
            lemma_row_count_update(old(self).rows@[y as int]@, x as int, v);
            lemma_rows_count_update(old(self).rows@, y as int, self.rows@[y as int]);

            assert forall|q: Point| q != p implies self.has(q) == old(self).has(q) by {
                if q.x < self.width && q.y < self.height {
                    if q.y != p.y {
                        assert(self.rows@[q.y as int] == old(self).rows@[q.y as int]);
                    }
                }
            }
        }
    }

    /// Adds `p`, which must lie on the board.
    pub fn insert(&mut self, p: Point)
        requires
            old(self).wf(),
            p.x < old(self).w(),
            p.y < old(self).h(),
        ensures
            final(self).wf(),
            final(self).w() == old(self).w(),
            final(self).h() == old(self).h(),
            final(self).has(p),
            forall|q: Point| q != p ==> final(self).has(q) == old(self).has(q),
            final(self).size() == old(self).size() + (if old(self).has(p) { 0nat } else { 1nat }),
            final(self)@ == old(self)@.insert(p),
    {
        self.set_flag(p, true);
        assert(self@ =~= old(self)@.insert(p));
    }

    /// Removes `p`; a point off the board is ignored.
    pub fn remove(&mut self, p: Point)
        requires
            old(self).wf(),
        ensures
            final(self).wf(),
            final(self).w() == old(self).w(),
            final(self).h() == old(self).h(),
            !final(self).has(p),
            forall|q: Point| q != p ==> final(self).has(q) == old(self).has(q),
            final(self).size() + (if old(self).has(p) { 1nat } else { 0nat }) == old(self).size(),
            final(self)@ == old(self)@.remove(p),
    {
        if p.x < self.width && p.y < self.height {
            self.set_flag(p, false);
        }
        assert(self@ =~= old(self)@.remove(p));
    }

    /// Removes every point, keeping the board's dimensions.
    pub fn clear(&mut self)
        requires
            old(self).wf(),
        ensures
            final(self).wf(),
            final(self).w() == old(self).w(),
            final(self).h() == old(self).h(),
            final(self)@ == Set::<Point>::empty(),
    {
        *self = PointSet::new(self.width, self.height);
    }

    /// A copy of the set.
    pub fn duplicate(&self) -> (r: PointSet)
        requires
            self.wf(),
        ensures
            r.wf(),
            r.w() == self.w(),
            r.h() == self.h(),
            r@ == self@,
    {
        let mut rows: Vec<Vec<bool>> = Vec::new();
        let mut y: usize = 0;
        while y < self.rows.len()
            invariant
                self.wf(),
                y <= self.rows@.len(),
                rows@.len() == y,
                forall|j: int| 0 <= j < y ==> (#[trigger] rows@[j])@ == self.rows@[j]@,
            decreases self.rows@.len() - y,
        {
            let mut row: Vec<bool> = Vec::new();
            let mut x: usize = 0;
            while x < self.rows[y].len()
                invariant
                    y < self.rows@.len(),
                    x <= self.rows@[y as int]@.len(),
                    row@ == self.rows@[y as int]@.take(x as int),
                decreases self.rows@[y as int]@.len() - x,
            {
                row.push(self.rows[y][x]);
                x = x + 1;
                assert(row@ =~= self.rows@[y as int]@.take(x as int));
            }
            assert(row@ =~= self.rows@[y as int]@);
            rows.push(row);
            y = y + 1;
        }
        let r = PointSet { width: self.width, height: self.height, rows };
        assert(r@ =~= self@);
        r
    }

    /// The points of the set, row by row from the top and left to right.
    pub fn to_vec(&self) -> (r: Vec<Point>)
        requires
            self.wf(),
        ensures
            forall|p: Point| r@.contains(p) <==> self.has(p),
            r@.no_duplicates(),
    {
        let mut out: Vec<Point> = Vec::new();
        let mut y: u16 = 0;
        while y < self.height
            invariant
                self.wf(),
                y <= self.height,
                forall|p: Point| out@.contains(p) <==> (self.has(p) && p.y < y),
                out@.no_duplicates(),
                forall|i: int| 0 <= i < out@.len() ==> (#[trigger] out@[i]).y < y,
            decreases self.height - y,
        {
            let mut x: u16 = 0;
            while x < self.width
                invariant
                    self.wf(),
                    y < self.height,
                    x <= self.width,
                    forall|p: Point| out@.contains(p) <==> (self.has(p) && (p.y < y || (p.y == y && p.x < x))),
                    out@.no_duplicates(),
                    forall|i: int| 0 <= i < out@.len() ==> (#[trigger] out@[i]).y < y || (out@[i].y == y && out@[i].x < x),
                decreases self.width - x,
            {
                let p = Point { x, y };
                let ghost before = out@;
                if self.rows[y as usize][x as usize] {
                    out.push(p);
                    proof {
                        assert forall|q: Point| out@.contains(q) <==> (self.has(q) && (q.y < y || (q.y == y && q.x < x + 1))) by {
                            if out@.contains(q) && q != p {
                                let i = choose|i: int| 0 <= i < out@.len() && out@[i] == q;
                                assert(before[i] == q);
                            }
                            if self.has(q) && (q.y < y || (q.y == y && q.x < x)) {
                                let i = choose|i: int| 0 <= i < before.len() && before[i] == q;
                                assert(out@[i] == q);
                            }
                            if q == p {
                                assert(out@[before.len() as int] == p);
                            }
                        }
                    }
                } else {
                    proof {
                        assert forall|q: Point| out@.contains(q) <==> (self.has(q) && (q.y < y || (q.y == y && q.x < x + 1))) by {
                            if q == p {
                                assert(!self.has(q));
                            }
                        }
                    }
                }
                x = x + 1;
            }
            y = y + 1;
        }
        out
    }

    /// The number of points in the set.
    pub fn count(&self) -> (r: usize)
        requires
            self.wf(),
            self.w() * self.h() <= usize::MAX,
        ensures
            r == self@.len(),
    {
        let v = self.to_vec();
        proof {
            lemma_vec_counts_set(v@, self@);
        }
        v.len()
    }

    /// Whether the set is empty.
    pub fn is_empty(&self) -> (r: bool)
        requires
            self.wf(),
        ensures
            r == (forall|p: Point| !self.has(p)),
    {
        let mut y: u16 = 0;
        while y < self.height
            invariant
                self.wf(),
                y <= self.height,
                forall|p: Point| p.y < y ==> !self.has(p),
            decreases self.height - y,
        {
            let mut x: u16 = 0;
            while x < self.width
                invariant
                    self.wf(),
                    y < self.height,
                    x <= self.width,
                    forall|p: Point| (p.y < y || (p.y == y && p.x < x)) ==> !self.has(p),
                decreases self.width - x,
            {
                if self.rows[y as usize][x as usize] {
                    assert(self.has(Point { x, y }));
                    return false;
                }
                x = x + 1;
            }
            y = y + 1;
        }
        true
    }
}

impl PointSet {
    /// A set missing a cell of the board holds fewer cells than the board.
    pub proof fn lemma_size_strict(&self, p: Point)
        requires
            self.wf(),
            p.x < self.w(),
            p.y < self.h(),
            !self.has(p),
        ensures
            self.size() < self.w() * self.h(),
    {
        lemma_rows_count_strict(self.rows@, self.width, p.y as int, p.x as int);
    }

    /// A set never holds more points than its board has cells.
    pub proof fn lemma_size_bound(&self)
        requires
            self.wf(),
        ensures
            self.size() <= self.w() * self.h(),
    {
        lemma_rows_count_bound(self.rows@, self.width);
        assert(self.rows@.len() * (self.width as int) == self.w() * self.h()) by (nonlinear_arith)
            requires
                self.rows@.len() == self.height,
                self.w() == self.width,
                self.h() == self.height,
        ;
    }
}

proof fn lemma_row_count_zero(r: Seq<bool>)
    requires
        forall|i: int| 0 <= i < r.len() ==> !r[i],
    ensures
        row_count(r) == 0,
    decreases r.len(),
{
    if r.len() > 0 {
        lemma_row_count_zero(r.drop_last());
    }
}

proof fn lemma_rows_count_zero(rows: Seq<Vec<bool>>, w: u16)
    requires
        forall|y: int| 0 <= y < rows.len() ==> (#[trigger] rows[y])@.len() == w,
        forall|y: int, i: int| 0 <= y < rows.len() && 0 <= i < w ==> !#[trigger] rows[y]@[i],
    ensures
        rows_count(rows) == 0,
    decreases rows.len(),
{
    if rows.len() > 0 {
        lemma_rows_count_zero(rows.drop_last(), w);
        lemma_row_count_zero(rows.last()@);
    }
}

proof fn lemma_row_count_bound(r: Seq<bool>)
    ensures
        row_count(r) <= r.len(),
    decreases r.len(),
{
    if r.len() > 0 {
        lemma_row_count_bound(r.drop_last());
    }
}

proof fn lemma_row_count_strict(r: Seq<bool>, i: int)
    requires
        0 <= i < r.len(),
        !r[i],
    ensures
        row_count(r) < r.len(),
    decreases r.len(),
{
    if i == r.len() - 1 {
        lemma_row_count_bound(r.drop_last());
    } else {
        lemma_row_count_strict(r.drop_last(), i);
    }
}

proof fn lemma_rows_count_strict(rows: Seq<Vec<bool>>, w: u16, y: int, x: int)
    requires
        forall|j: int| 0 <= j < rows.len() ==> (#[trigger] rows[j])@.len() == w,
        0 <= y < rows.len(),
        0 <= x < w,
        !rows[y]@[x],
    ensures
        rows_count(rows) < rows.len() * (w as int),
    decreases rows.len(),
{
    if y == rows.len() - 1 {
        lemma_rows_count_bound(rows.drop_last(), w);
        lemma_row_count_strict(rows.last()@, x);
    } else {
        lemma_rows_count_strict(rows.drop_last(), w, y, x);
        lemma_row_count_bound(rows.last()@);
    }
    assert(rows.len() * (w as int) == (rows.len() - 1) * (w as int) + w) by (nonlinear_arith);
}

proof fn lemma_rows_count_bound(rows: Seq<Vec<bool>>, w: u16)
    requires
        forall|y: int| 0 <= y < rows.len() ==> (#[trigger] rows[y])@.len() == w,
    ensures
        rows_count(rows) <= rows.len() * (w as int),
    decreases rows.len(),
{
    if rows.len() > 0 {
        lemma_rows_count_bound(rows.drop_last(), w);
        lemma_row_count_bound(rows.last()@);
        assert(rows.len() * (w as int) == (rows.len() - 1) * (w as int) + w) by (nonlinear_arith);
    }
}

/// A sequence without duplicates that holds exactly the points of a set has
/// the set's size.
proof fn lemma_vec_counts_set(v: Seq<Point>, s: Set<Point>)
    requires
        v.no_duplicates(),
        forall|p: Point| v.contains(p) <==> s.contains(p),
    ensures
        s.finite(),
        s.len() == v.len(),
{
    assert(v.to_set() =~= s);
    v.unique_seq_to_set();
}

/// The number of set flags in a row.
pub open spec fn row_count(r: Seq<bool>) -> nat
    decreases r.len(),
{
    if r.len() == 0 {
        0
    } else {
        row_count(r.drop_last()) + (if r.last() { 1nat } else { 0nat })
    }
}

/// The number of set flags in all rows.
pub open spec fn rows_count(rows: Seq<Vec<bool>>) -> nat
    decreases rows.len(),
{
    if rows.len() == 0 {
        0
    } else {
        rows_count(rows.drop_last()) + row_count(rows.last()@)
    }
}

proof fn lemma_row_count_update(r: Seq<bool>, i: int, v: bool)
    requires
        0 <= i < r.len(),
    ensures
        row_count(r.update(i, v)) + (if r[i] { 1nat } else { 0nat }) == row_count(r) + (if v { 1nat } else { 0nat }),
    decreases r.len(),
{
    let u = r.update(i, v);
    if i == r.len() - 1 {
        assert(u.drop_last() =~= r.drop_last());
    } else {
        lemma_row_count_update(r.drop_last(), i, v);
        assert(u.drop_last() =~= r.drop_last().update(i, v));
    }
}

proof fn lemma_rows_count_update(rows: Seq<Vec<bool>>, y: int, row: Vec<bool>)
    requires
        0 <= y < rows.len(),
    ensures
        rows_count(rows.update(y, row)) + row_count(rows[y]@) == rows_count(rows) + row_count(row@),
    decreases rows.len(),
{
    let u = rows.update(y, row);
    if y == rows.len() - 1 {
        assert(u.drop_last() =~= rows.drop_last());
    } else {
        lemma_rows_count_update(rows.drop_last(), y, row);
        assert(u.drop_last() =~= rows.drop_last().update(y, row));
    }
}

} // verus!
