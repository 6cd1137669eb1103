use crate::game::{inside, on_board, vec_contains, Game};
use crate::grid::Grid;
use crate::kinds::GameMode;
use crate::pointset::PointSet;
use crate::autopilot::in_queue;
use crate::game::dir_at;
use crate::snake::{spec_opposite, spec_step, Direction, Point};
use vstd::prelude::*;

verus! {

/// The index of `d` in the order up, down, left, right.
pub open spec fn dir_index_of(d: Direction) -> int {
    match d {
        Direction::Up => 0,
        Direction::Down => 1,
        Direction::Left => 2,
        Direction::Right => 3,
    }
}

/// The candidates for `curr` and heading `d` hold everything of the list
/// before the wrap cells are added.
proof fn lemma_candidates_keep(g: &Game, curr: Point, d: Direction, x: (Point, Direction))
    ensures
        g.portal_candidates(curr, d).contains(x) ==> g.candidates_of(curr, d).contains(x),
{
    let c1 = g.portal_candidates(curr, d);
    if c1.contains(x) {
        let k = choose|k: int| 0 <= k < c1.len() && c1[k] == x;
        let r = g.candidates_of(curr, d);
        assert(r.len() >= c1.len());
        assert(r.subrange(0, c1.len() as int) =~= c1);
        assert(r[k] == x);
    }
}

/// A sequence that extends `a` holds what `a` holds.
proof fn lemma_push_keeps(a: Seq<(Point, Direction)>, b: Seq<(Point, Direction)>, x: (Point, Direction))
    requires
        a.contains(x),
        b.len() >= a.len(),
        b.subrange(0, a.len() as int) == a,
    ensures
        b.contains(x),
{
    let k = choose|k: int| 0 <= k < a.len() && a[k] == x;
    assert(b.subrange(0, a.len() as int)[k] == x);
}

/// The four cells from which a move ends on `q`, one per heading in the
/// order up, down, left, right, each with that heading.
pub open spec fn cells_into(q: Point) -> Seq<(Point, Direction)> {
    Seq::new(4, |i: int| (spec_step(q, spec_opposite(dir_at(i))), dir_at(i)))
}

impl Game {
    /// Whether the boss can safely stand on `p` after any number of moves
    /// at `now`, inside the safe zone.
    pub open spec fn boss_always_safe(&self, p: Point, now: u64) -> bool {
        &&& inside(p, self.width, self.height, self.margin())
        &&& forall|k: u16| k >= 1 ==> #[trigger] self.safe_at(p, k, 3, now)
    }

    /// Whether a move from `p` in heading `dir` ends on `c` at `now` with
    /// `p` a cell the boss can always stand on.
    pub open spec fn flow_pred(&self, p: Point, dir: Direction, c: Point, now: u64) -> bool {
        &&& self.boss_always_safe(p, now)
        &&& self.final_p(spec_step(p, dir), now) == Some(c)
    }

    /// Whether `ps` is a route at `now` to one of `targets`: each cell
    /// after the first is reached from the one before by a move from a
    /// cell the boss can always stand on, and the last is a target.
    pub open spec fn flow_route(&self, targets: Seq<Point>, ps: Seq<Point>, now: u64) -> bool {
        &&& ps.len() >= 1
        &&& targets.contains(ps.last())
        &&& forall|i: int| 0 <= i < ps.len() - 1 ==> #[trigger] self.flow_step(ps[i], ps[i + 1], now)
    }

    /// Whether some move from `a`, a cell the boss can always stand on,
    /// ends on `b` at `now`.
    pub open spec fn flow_step(&self, a: Point, b: Point, now: u64) -> bool {
        exists|dir: Direction| #[trigger] self.flow_pred(a, dir, b, now)
    }

    /// Whether every cell from which a move ends on `c` at `now`, and on
    /// which the boss can always stand, has an arrow in `f` or is a target.
    pub open spec fn flow_closed(&self, f: Grid<Option<Direction>>, targets: Seq<Point>, c: Point, now: u64) -> bool {
        forall|p: Point, dir: Direction| #[trigger] self.flow_pred(p, dir, c, now) ==> f.at(p) is Some || targets.contains(p)
    }

    /// Whether `f` gives an arrow to every cell of every route to `targets`
    /// at `now` that is not a target itself (see `flow_route`), when the
    /// board wraps only as the flow field follows (see `wraps_as_set`).
    pub open spec fn field_complete(&self, f: Grid<Option<Direction>>, targets: Seq<Point>, now: u64) -> bool {
        self.wraps_as_set(now) ==> forall|ps: Seq<Point>, i: int|
            #![trigger self.flow_route(targets, ps, now), ps[i]]
            self.flow_route(targets, ps, now) && 0 <= i < ps.len() ==> f.at(ps[i]) is Some || targets.contains(ps[i])
    }

    /// Every cell of a route is a target or has an arrow, when every cell
    /// that is a target or has an arrow is in the queue and closed.
    proof fn lemma_route_covered(
        &self,
        f: Grid<Option<Direction>>,
        targets: Seq<Point>,
        q: Seq<(Point, u16)>,
        ps: Seq<Point>,
        i: int,
        now: u64,
    )
        requires
            self.wf(),
            forall|k: int| 0 <= k < q.len() ==> self.flow_closed(f, targets, #[trigger] q[k].0, now),
            forall|c: Point| #[trigger] f.at(c) is Some && on_board(c, self.width, self.height) ==> in_queue(q, c),
            forall|c: Point| #[trigger] targets.contains(c) ==> in_queue(q, c),
            self.flow_route(targets, ps, now),
            0 <= i < ps.len(),
        ensures
            f.at(ps[i]) is Some || targets.contains(ps[i]),
        decreases ps.len() - i,
    {
        if i < ps.len() - 1 {
            self.lemma_route_covered(f, targets, q, ps, i + 1, now);
            assert(self.flow_step(ps[i], ps[i + 1], now));
            let dir = choose|dir: Direction| #[trigger] self.flow_pred(ps[i], dir, ps[i + 1], now);
            self.lemma_final_on_board(spec_step(ps[i], dir), now);
            assert(in_queue(q, ps[i + 1]));
            let k = choose|k: int| 0 <= k < q.len() && #[trigger] q[k].0 == ps[i + 1];
            assert(self.flow_closed(f, targets, q[k].0, now));
        }
    }

    /// Whether the board wraps at `now` only in the way the flow field
    /// follows: through the wrap setting or in Zen mode.
    pub open spec fn wraps_as_set(&self, now: u64) -> bool {
        self.wraps(now) ==> self.wrap_mode || self.mode == GameMode::Zen
    }

    /// Every move onto `curr` from a cell inside the safe zone is among the
    /// candidates for `curr` and its heading.
    proof fn lemma_candidates_complete(&self, p: Point, dir: Direction, curr: Point, now: u64)
        requires
            self.wf(),
            inside(p, self.width, self.height, self.margin()),
            self.final_p(spec_step(p, dir), now) == Some(curr),
            self.wraps_as_set(now),
        ensures
            self.candidates_of(curr, dir).contains((p, dir)),
    {
        let q = spec_step(p, dir);
        let back = spec_opposite(dir);
        assert(spec_step(q, back) == p);
        let c0 = seq![(spec_step(curr, back), dir)];
        let i = dir_index_of(dir);
        assert(dir_at(i) == dir);
        let c1 = self.portal_candidates(curr, dir);
        let target = (p, dir);
        if self.portal_exit(q) is Some {
            let (p1, p2) = self.portals->0;
            if q == p1 {
                assert(curr == p2);
                let a = c0 + cells_into(p1);
                assert(cells_into(p1)[i] == target);
                assert(a[1 + i] == target);
                if curr == p1 {
                    assert(c1[1 + i] == target);
                } else {
                    assert(c1 == a);
                }
                assert(c1.contains(target));
            } else {
                assert(q == p2 && curr == p1);
                let a = if curr == p2 { c0 + cells_into(p1) } else { c0 };
                assert(cells_into(p2)[i] == target);
                assert(c1 == a + cells_into(p2));
                assert(c1[a.len() + i] == target);
                assert(c1.contains(target));
            }
        } else if !self.wraps(now) || inside(q, self.width, self.height, 0) {
            assert(curr == q);
            assert(c0[0] == target);
            assert(c1[0] == target);
            assert(c1.contains(target));
        }
        lemma_candidates_keep(self, curr, dir, target);
        if self.portal_exit(q) is None && self.wraps(now) && !inside(q, self.width, self.height, 0) {
            assert(self.margin() == 0);
            let w = self.width;
            let h = self.height;
            let w1 = if curr.x == 1 && back == Direction::Left {
                c1.push((Point { x: (w - 2) as u16, y: curr.y }, dir))
            } else {
                c1
            };
            let w2 = if curr.x == w - 2 && back == Direction::Right {
                w1.push((Point { x: 1, y: curr.y }, dir))
            } else {
                w1
            };
            let w3 = if curr.y == 1 && back == Direction::Up {
                w2.push((Point { x: curr.x, y: (h - 2) as u16 }, dir))
            } else {
                w2
            };
            let w4 = if curr.y == h - 2 && back == Direction::Down {
                w3.push((Point { x: curr.x, y: 1 }, dir))
            } else {
                w3
            };
            assert(self.candidates_of(curr, dir) == w4);
            match dir {
                Direction::Right => {
                    assert(w1[c1.len() as int] == target);
                    assert(w1.contains(target));
                },
                Direction::Left => {
                    assert(w2[w1.len() as int] == target);
                    assert(w2.contains(target));
                },
                Direction::Down => {
                    assert(w3[w2.len() as int] == target);
                    assert(w3.contains(target));
                },
                Direction::Up => {
                    assert(w4[w3.len() as int] == target);
                },
            }
            if w1.contains(target) {
                assert(w2.subrange(0, w1.len() as int) =~= w1);
                lemma_push_keeps(w1, w2, target);
            }
            if w2.contains(target) {
                assert(w3.subrange(0, w2.len() as int) =~= w2);
                lemma_push_keeps(w2, w3, target);
            }
            if w3.contains(target) {
                assert(w4.subrange(0, w3.len() as int) =~= w3);
                lemma_push_keeps(w3, w4, target);
            }
        }
    }

    /// The cell behind `curr` for heading `d`, then, when `curr` is the
    /// second end of a portal, the cells into the first end, and when it is
    /// the first end, the cells into the second (see `cells_into`).
    pub open spec fn portal_candidates(&self, curr: Point, d: Direction) -> Seq<(Point, Direction)> {
        let c0 = seq![(spec_step(curr, spec_opposite(d)), d)];
        match self.portals {
            Some((p1, p2)) => {
                let a = if curr == p2 { c0 + cells_into(p1) } else { c0 };
                if curr == p1 { a + cells_into(p2) } else { a }
            },
            None => c0,
        }
    }

    /// The candidates `flow_candidates` lists for `curr` and heading `d`, in
    /// its order: the cell behind `curr`; when `curr` is the second end of a
    /// portal, the cells into the first end (see `cells_into`), and when it
    /// is the first end, those into the second; then, when the board wraps,
    /// the far cell on the row or column for each border `curr` lies next to
    /// in the direction it was entered from.
    pub open spec fn candidates_of(&self, curr: Point, d: Direction) -> Seq<(Point, Direction)> {
        let back = spec_opposite(d);
        let c1 = self.portal_candidates(curr, d);
        if self.wrap_mode || self.mode == GameMode::Zen {
            let w1 = if curr.x == 1 && back == Direction::Left {
                c1.push((Point { x: (self.width - 2) as u16, y: curr.y }, d))
            } else {
                c1
            };
            let w2 = if curr.x == self.width - 2 && back == Direction::Right {
                w1.push((Point { x: 1, y: curr.y }, d))
            } else {
                w1
            };
            let w3 = if curr.y == 1 && back == Direction::Up {
                w2.push((Point { x: curr.x, y: (self.height - 2) as u16 }, d))
            } else {
                w2
            };
            if curr.y == self.height - 2 && back == Direction::Down {
                w3.push((Point { x: curr.x, y: 1 }, d))
            } else {
                w3
            }
        } else {
            c1
        }
    }

    /// Whether the arrow of the flow field `f` at `p`, if any, is sound at
    /// `now` (Unix seconds) for `targets`: `p` lies inside the safe zone, is
    /// no target, is safe to be on after some steps, and following the arrow
    /// (through portals and around the board) leads onto a target or onto
    /// another cell with an arrow.
    pub open spec fn arrow_ok(&self, f: Grid<Option<Direction>>, targets: Seq<Point>, p: Point, now: u64) -> bool {
        f.at(p) matches Some(d) ==> {
            &&& inside(p, self.width, self.height, self.margin())
            &&& !targets.contains(p)
            &&& exists|k: u16| k >= 1 && #[trigger] self.safe_at(p, k, 3, now)
            &&& self.final_p(spec_step(p, d), now) matches Some(q) && on_board(q, self.width, self.height) && (targets.contains(q)
                || f.at(q) is Some)
        }
    }

    /// `lv` counts for every cell with an arrow in `f` the arrows to follow
    /// to reach a target: an arrow leads onto a target from a cell counted
    /// one, or else onto a cell with an arrow counted one less.
    pub open spec fn field_ranked(&self, f: Grid<Option<Direction>>, targets: Seq<Point>, lv: Map<Point, nat>, now: u64) -> bool {
        forall|p: Point|
            on_board(p, self.width, self.height) && #[trigger] f.at(p) is Some ==> lv.dom().contains(p) && (self.final_p(
                spec_step(p, f.at(p)->0),
                now,
            ) matches Some(q) && ((targets.contains(q) && lv[p] == 1) || (f.at(q) is Some && lv.dom().contains(q) && lv[q] + 1
                == lv[p])))
    }

    /// A new arrow from `prev` onto `curr`, a target or a cell ranked
    /// `dist`, keeps the field ranked when `prev` is ranked `dist + 1`, and
    /// keeps every arrowed queue entry ranked by its distance.
    proof fn lemma_rank_step(
        &self,
        f0: Grid<Option<Direction>>,
        f: Grid<Option<Direction>>,
        lv0: Map<Point, nat>,
        q0: Seq<(Point, u16)>,
        q: Seq<(Point, u16)>,
        targets: Seq<Point>,
        prev: Point,
        dir: Direction,
        curr: Point,
        dist: u16,
        now: u64,
    )
        requires
            self.field_ranked(f0, targets, lv0, now),
            self.arrow_taken(f0, targets, prev, dir, curr, dist, now),
            on_board(prev, self.width, self.height),
            f.at(prev) == Some(dir),
            forall|c: Point| c != prev && on_board(c, self.width, self.height) ==> #[trigger] f.at(c) == f0.at(c),
            (targets.contains(curr) && dist == 0) || (f0.at(curr) is Some && lv0.dom().contains(curr) && lv0[curr] == dist),
            forall|k: int| 0 <= k < q0.len() ==> on_board(#[trigger] q0[k].0, self.width, self.height) && (targets.contains(q0[k].0)
                || f0.at(q0[k].0) is Some),
            forall|k: int| 0 <= k < q0.len() && f0.at((#[trigger] q0[k]).0) is Some ==> lv0.dom().contains(q0[k].0) && lv0[q0[k].0]
                == q0[k].1,
            q == q0.push((prev, (dist + 1) as u16)),
            dist < u16::MAX,
            forall|c: Point| #[trigger] lv0.dom().contains(c) ==> on_board(c, self.width, self.height) && f0.at(c) is Some,
        ensures
            forall|c: Point| #[trigger] lv0.insert(prev, (dist + 1) as nat).dom().contains(c) ==> on_board(c, self.width, self.height)
                && f.at(c) is Some,
            self.field_ranked(f, targets, lv0.insert(prev, (dist + 1) as nat), now),
            forall|k: int| 0 <= k < q.len() && f.at((#[trigger] q[k]).0) is Some ==> lv0.insert(prev, (dist + 1) as nat).dom().contains(
                q[k].0,
            ) && lv0.insert(prev, (dist + 1) as nat)[q[k].0] == q[k].1,
    {
        let lv = lv0.insert(prev, (dist + 1) as nat);
        assert(!lv0.dom().contains(prev));
        assert forall|p: Point| on_board(p, self.width, self.height) && #[trigger] f.at(p) is Some implies lv.dom().contains(p) && (
        self.final_p(spec_step(p, f.at(p)->0), now) matches Some(qq) && (targets.contains(qq) || (lv.dom().contains(qq) && lv[qq]
            < lv[p]))) by {
            if p != prev {
                assert(f.at(p) == f0.at(p));
                assert(f0.at(p) is Some);
                let qq = self.final_p(spec_step(p, f0.at(p)->0), now)->0;
                if !(targets.contains(qq) && lv0[p] == 1) {
                    assert(f0.at(qq) is Some && lv0.dom().contains(qq) && lv0[qq] + 1 == lv0[p]);
                    assert(qq != prev);
                }
            } else {
                assert(self.final_p(spec_step(prev, dir), now) == Some(curr));
                if !(targets.contains(curr) && dist == 0) {
                    assert(curr != prev);
                }
            }
        }
        assert forall|k: int| 0 <= k < q.len() && f.at((#[trigger] q[k]).0) is Some implies lv.dom().contains(q[k].0) && lv[q[k].0]
            == q[k].1 by {
            if k < q0.len() {
                assert(q[k] == q0[k]);
                if q0[k].0 == prev {
                    assert(!targets.contains(prev) && f0.at(prev) is None);
                }
                assert(q0[k].0 != prev);
                assert(f.at(q0[k].0) == f0.at(q0[k].0));
            } else {
                assert(q[k] == (prev, (dist + 1) as u16));
            }
        }
    }

    /// Whether every arrow of `f` is sound at `now` (see `arrow_ok`).
    pub open spec fn field_sound(&self, f: Grid<Option<Direction>>, targets: Seq<Point>, now: u64) -> bool {
        forall|c: Point| on_board(c, self.width, self.height) ==> #[trigger] self.arrow_ok(f, targets, c, now)
    }

    /// What the search for a flow field keeps: the field `f` and the set
    /// `marked` of its cells agree, every arrow is sound (see `arrow_ok`),
    /// every queued cell is a target or has an arrow, and the queue is no
    /// longer than the targets and the marked cells together.
    pub open spec fn flow_inv(
        &self,
        f: Grid<Option<Direction>>,
        marked: PointSet,
        queue: Seq<(Point, u16)>,
        targets: Seq<Point>,
        now: u64,
    ) -> bool {
        &&& f.wf() && f.width() == self.width && f.height() == self.height
        &&& marked.wf() && marked.w() == self.width && marked.h() == self.height
        &&& forall|c: Point| on_board(c, self.width, self.height) ==> (#[trigger] f.at(c) is Some <==> marked.has(c))
        &&& forall|c: Point| on_board(c, self.width, self.height) ==> #[trigger] self.arrow_ok(f, targets, c, now)
        &&& forall|k: int| 0 <= k < queue.len() ==> on_board(#[trigger] queue[k].0, self.width, self.height) && (targets.contains(
            queue[k].0,
        ) || f.at(queue[k].0) is Some) && queue[k].1 <= marked.size()
        &&& queue.len() <= targets.len() + marked.size()
    }

    /// The cells from which a move in heading `d` might end on `curr`, each
    /// with that heading: the cell behind `curr`, the cells around the other
    /// end of a portal at `curr`, and, when the board wraps, the cell on the
    /// far side.
    fn flow_candidates(&self, curr: Point, d: Direction) -> (r: Vec<(Point, Direction)>)
        requires
            self.wf(),
            on_board(curr, self.width, self.height),
        ensures
            r@ == self.candidates_of(curr, d),
    {
        let back = d.opposite();
        let mut c: Vec<(Point, Direction)> = Vec::new();
        c.push((Self::calculate_next_head_dir(curr, back), d));
        match self.portals {
            Some((p1, p2)) => {
                if curr == p2 {
                    let ghost pre = c@;
                    let mut i: usize = 0;
                    while i < 4
                        invariant
                            p1.x < u16::MAX && p1.y < u16::MAX,
                            i <= 4,
                            c@ == pre + cells_into(p1).take(i as int),
                        decreases 4 - i,
                    {
                        let pd = crate::game::dir_of_index(i);
                        c.push((Self::calculate_next_head_dir(p1, pd.opposite()), pd));
                        assert(c@ =~= pre + cells_into(p1).take(i + 1));
                        i = i + 1;
                    }
                    assert(cells_into(p1).take(4) =~= cells_into(p1));
                }
                if curr == p1 {
                    let ghost pre = c@;
                    let mut i: usize = 0;
                    while i < 4
                        invariant
                            p2.x < u16::MAX && p2.y < u16::MAX,
                            i <= 4,
                            c@ == pre + cells_into(p2).take(i as int),
                        decreases 4 - i,
                    {
                        let pd = crate::game::dir_of_index(i);
                        c.push((Self::calculate_next_head_dir(p2, pd.opposite()), pd));
                        assert(c@ =~= pre + cells_into(p2).take(i + 1));
                        i = i + 1;
                    }
                    assert(cells_into(p2).take(4) =~= cells_into(p2));
                }
            },
            None => {},
        }
        if self.wrap_mode || self.mode == GameMode::Zen {
            if curr.x == 1 && back == Direction::Left {
                c.push((Point { x: self.width - 2, y: curr.y }, d));
            }
            if curr.x == self.width - 2 && back == Direction::Right {
                c.push((Point { x: 1, y: curr.y }, d));
            }
            if curr.y == 1 && back == Direction::Up {
                c.push((Point { x: curr.x, y: self.height - 2 }, d));
            }
            if curr.y == self.height - 2 && back == Direction::Down {
                c.push((Point { x: curr.x, y: 1 }, d));
            }
        }
        c
    }

    /// Whether `try_arrow` gives `prev` the arrow `dir` towards `curr`:
    /// `prev` lies inside the safe zone, has no arrow in `f` yet, is no
    /// target, moving from it along `dir` ends on `curr`, and the boss is
    /// safe on it after `dist + 1` steps at `now`.
    pub open spec fn arrow_taken(
        &self,
        f: Grid<Option<Direction>>,
        targets: Seq<Point>,
        prev: Point,
        dir: Direction,
        curr: Point,
        dist: u16,
        now: u64,
    ) -> bool {
        &&& inside(prev, self.width, self.height, self.margin())
        &&& f.at(prev) is None
        &&& !targets.contains(prev)
        &&& self.final_p(spec_step(prev, dir), now) == Some(curr)
        &&& self.safe_at(prev, (dist + 1) as u16, 3, now)
    }

    /// Gives `prev` the arrow `dir`, marks it and queues it at distance
    /// `dist + 1` when `arrow_taken` holds; otherwise changes nothing.
    fn try_arrow(
        &self,
        f: &mut Grid<Option<Direction>>,
        marked: &mut PointSet,
        queue: &mut Vec<(Point, u16)>,
        targets: &Vec<Point>,
        prev: Point,
        dir: Direction,
        curr: Point,
        dist: u16,
        now: u64,
    )
        requires
            self.wf(),
            (self.width as int) * (self.height as int) < 65535,
            self.flow_inv(*old(f), *old(marked), old(queue)@, targets@, now),
            on_board(curr, self.width, self.height),
            targets@.contains(curr) || old(f).at(curr) is Some,
            dist <= old(marked).size(),
        ensures
            self.flow_inv(*final(f), *final(marked), final(queue)@, targets@, now),
            final(marked).size() >= old(marked).size(),
            forall|c: Point| on_board(c, self.width, self.height) && #[trigger] old(f).at(c) is Some ==> final(f).at(c) is Some,
            final(queue)@.len() >= old(queue)@.len(),
            final(queue)@.subrange(0, old(queue)@.len() as int) == old(queue)@,
            self.arrow_taken(*old(f), targets@, prev, dir, curr, dist, now) ==> {
                &&& final(f).at(prev) == Some(dir)
                &&& forall|c: Point| c != prev && on_board(c, self.width, self.height) ==> #[trigger] final(f).at(c) == old(f).at(c)
                &&& final(marked)@ == old(marked)@.insert(prev)
                &&& final(queue)@ == old(queue)@.push((prev, (dist + 1) as u16))
            },
            !self.arrow_taken(*old(f), targets@, prev, dir, curr, dist, now) ==> *final(f) == *old(f) && *final(marked)
                == *old(marked) && final(queue)@ == old(queue)@,
    {
        let margin = self.margin_now();
        if !self.is_inside(prev, margin) {
            proof {
                assert(queue@.subrange(0, queue@.len() as int) =~= queue@);
            }
            return;
        }
        if f.get(prev).is_some() || vec_contains(targets, prev) {
            proof {
                assert(queue@.subrange(0, queue@.len() as int) =~= queue@);
            }
            return;
        }
        let next = Self::calculate_next_head_dir(prev, dir);
        let lands = match self.get_final_p_at(next, now) {
            Some(q) => q == curr,
            None => false,
        };
        if !lands {
            proof {
                assert(queue@.subrange(0, queue@.len() as int) =~= queue@);
            }
            return;
        }
        proof {
            marked.lemma_size_bound();
            assert(!marked.has(prev));
        }
        if !self.is_safe_final_p_at(prev, dist + 1, 3, now) {
            proof {
                assert(queue@.subrange(0, queue@.len() as int) =~= queue@);
            }
            return;
        }
        let ghost f0 = *f;
        let ghost q0 = queue@;
        f.set(prev, Some(dir));
        marked.insert(prev);
        queue.push((prev, dist + 1));
        proof {
            assert forall|c: Point| on_board(c, self.width, self.height) implies (#[trigger] f.at(c) is Some <==> marked.has(c)) by {
                if c != prev {
                    assert(f.at(c) == f0.at(c));
                }
            }
            assert forall|c: Point| on_board(c, self.width, self.height) implies #[trigger] self.arrow_ok(*f, targets@, c, now) by {
                if c != prev {
                    assert(f.at(c) == f0.at(c));
                    assert(self.arrow_ok(f0, targets@, c, now));
                    if f0.at(c) is Some {
                        let q = self.final_p(spec_step(c, f0.at(c)->0), now)->0;
                        if !targets@.contains(q) {
                            assert(f0.at(q) is Some);
                            if q != prev {
                                assert(f.at(q) == f0.at(q));
                            }
                        }
                    }
                } else {
                    assert(self.safe_at(prev, (dist + 1) as u16, 3, now));
                    if curr != prev && !targets@.contains(curr) {
                        assert(f.at(curr) == f0.at(curr));
                    }
                }
            }
            assert forall|k: int| 0 <= k < queue@.len() implies on_board(#[trigger] queue@[k].0, self.width, self.height)
                && (targets@.contains(queue@[k].0) || f.at(queue@[k].0) is Some) && queue@[k].1 <= marked.size() by {
                if k < q0.len() {
                    assert(queue@[k] == q0[k]);
                    if queue@[k].0 != prev && !targets@.contains(queue@[k].0) {
                        assert(f.at(queue@[k].0) == f0.at(queue@[k].0));
                    }
                }
            }
            assert(queue@.subrange(0, q0.len() as int) =~= q0);
        }
    }

    /// A flow field towards `targets` at `now` (Unix seconds): a search
    /// backwards from the targets, nearest first, gives each cell from which
    /// one move safely leads closer (see `flow_candidates` and `try_arrow`)
    /// the heading of that move. Every arrow is sound (see `arrow_ok`), and
    /// every cell of a route to a target over cells the boss can always
    /// stand on gets one (see `field_complete`); each arrow leads one step
    /// nearer a target, so following them never goes round in a circle (see
    /// `field_ranked`).
    pub fn generate_flow_field_at(&self, targets: &Vec<Point>, now: u64) -> (r: Grid<Option<Direction>>)
        requires
            self.wf(),
            (self.width as int) * (self.height as int) < 65535,
            forall|i: int| 0 <= i < targets@.len() ==> on_board(#[trigger] targets@[i], self.width, self.height),
        ensures
            r.wf(),
            r.width() == self.width,
            r.height() == self.height,
            self.field_sound(r, targets@, now),
            self.field_complete(r, targets@, now),
            exists|lv: Map<Point, nat>| #[trigger] self.field_ranked(r, targets@, lv, now),
    {
        let ghost ws = self.wraps_as_set(now);
        let ghost mut lv: Map<Point, nat> = Map::empty();
        let mut f: Grid<Option<Direction>> = Grid::new(self.width, self.height, None);
        let mut marked = PointSet::new(self.width, self.height);
        let mut queue: Vec<(Point, u16)> = Vec::new();
        let mut t: usize = 0;
        while t < targets.len()
            invariant
                t <= targets@.len(),
                queue@.len() == t,
                forall|k: int| 0 <= k < t ==> #[trigger] queue@[k] == (targets@[k], 0u16),
            decreases targets@.len() - t,
        {
            queue.push((targets[t], 0));
            t = t + 1;
        }
        assert forall|k: int| 0 <= k < queue@.len() implies on_board(#[trigger] queue@[k].0, self.width, self.height) && (
        targets@.contains(queue@[k].0) || f.at(queue@[k].0) is Some) && queue@[k].1 <= marked.size() by {
            assert(queue@[k] == (targets@[k], 0u16));
        }
        assert forall|c: Point| #[trigger] targets@.contains(c) implies in_queue(queue@, c) by {
            let k = choose|k: int| 0 <= k < targets@.len() && targets@[k] == c;
            assert(queue@[k] == (targets@[k], 0u16));
            assert(queue@[k].0 == c);
        }
        let mut head: usize = 0;
        while head < queue.len()
            invariant
                self.wf(),
                (self.width as int) * (self.height as int) < 65535,
                self.flow_inv(f, marked, queue@, targets@, now),
                head <= queue@.len(),
                ws == self.wraps_as_set(now),
                forall|c: Point| #[trigger] f.at(c) is Some && on_board(c, self.width, self.height) ==> in_queue(queue@, c),
                forall|c: Point| #[trigger] targets@.contains(c) ==> in_queue(queue@, c),
                ws ==> forall|k: int| 0 <= k < head ==> self.flow_closed(f, targets@, #[trigger] queue@[k].0, now),
                forall|k: int| 0 <= k < queue@.len() && f.at((#[trigger] queue@[k]).0) is Some ==> lv.dom().contains(queue@[k].0)
                    && lv[queue@[k].0] == queue@[k].1,
                self.field_ranked(f, targets@, lv, now),
                forall|c: Point| #[trigger] lv.dom().contains(c) ==> on_board(c, self.width, self.height) && f.at(c) is Some,
                forall|k: int| 0 <= k < queue@.len() && f.at((#[trigger] queue@[k]).0) is None ==> queue@[k].1 == 0,
            decreases targets@.len() + (self.width as int) * (self.height as int) - head,
        {
            let (curr, dist) = queue[head];
            head = head + 1;
            let mut d: usize = 0;
            while d < 4
                invariant
                    self.wf(),
                    (self.width as int) * (self.height as int) < 65535,
                    self.flow_inv(f, marked, queue@, targets@, now),
                    1 <= head <= queue@.len(),
                    on_board(curr, self.width, self.height),
                    targets@.contains(curr) || f.at(curr) is Some,
                    dist <= marked.size(),
                    d <= 4,
                    curr == queue@[head - 1].0,
                    ws == self.wraps_as_set(now),
                    forall|c: Point| #[trigger] f.at(c) is Some && on_board(c, self.width, self.height) ==> in_queue(queue@, c),
                    forall|c: Point| #[trigger] targets@.contains(c) ==> in_queue(queue@, c),
                    ws ==> forall|k: int| 0 <= k < head - 1 ==> self.flow_closed(f, targets@, #[trigger] queue@[k].0, now),
                    ws ==> forall|p: Point, dir: Direction| #[trigger] self.flow_pred(p, dir, curr, now) && dir_index_of(dir) < d
                        ==> f.at(p) is Some || targets@.contains(p),
                    dist == queue@[head - 1].1,
                    forall|k: int| 0 <= k < queue@.len() && f.at((#[trigger] queue@[k]).0) is Some ==> lv.dom().contains(queue@[k].0)
                        && lv[queue@[k].0] == queue@[k].1,
                    self.field_ranked(f, targets@, lv, now),
                    forall|c: Point| #[trigger] lv.dom().contains(c) ==> on_board(c, self.width, self.height) && f.at(c) is Some,
                    forall|k: int| 0 <= k < queue@.len() && f.at((#[trigger] queue@[k]).0) is None ==> queue@[k].1 == 0,
                decreases 4 - d,
            {
                let hd = crate::game::dir_of_index(d);
                let cands = self.flow_candidates(curr, hd);
                let mut j: usize = 0;
                while j < cands.len()
                    invariant
                        self.wf(),
                        (self.width as int) * (self.height as int) < 65535,
                        self.flow_inv(f, marked, queue@, targets@, now),
                        1 <= head <= queue@.len(),
                        on_board(curr, self.width, self.height),
                        targets@.contains(curr) || f.at(curr) is Some,
                        dist <= marked.size(),
                        d < 4,
                        hd == dir_at(d as int),
                        cands@ == self.candidates_of(curr, hd),
                        curr == queue@[head - 1].0,
                        ws == self.wraps_as_set(now),
                        forall|c: Point| #[trigger] f.at(c) is Some && on_board(c, self.width, self.height) ==> in_queue(queue@, c),
                        forall|c: Point| #[trigger] targets@.contains(c) ==> in_queue(queue@, c),
                        ws ==> forall|k: int| 0 <= k < head - 1 ==> self.flow_closed(f, targets@, #[trigger] queue@[k].0, now),
                        ws ==> forall|p: Point, dir: Direction| #[trigger] self.flow_pred(p, dir, curr, now) && dir_index_of(dir) < d
                            ==> f.at(p) is Some || targets@.contains(p),
                        ws ==> forall|i: int| 0 <= i < j && #[trigger] self.flow_pred(cands@[i].0, cands@[i].1, curr, now) ==> f.at(
                            cands@[i].0,
                        ) is Some || targets@.contains(cands@[i].0),
                        dist == queue@[head - 1].1,
                        forall|k: int| 0 <= k < queue@.len() && f.at((#[trigger] queue@[k]).0) is Some ==> lv.dom().contains(queue@[k].0)
                            && lv[queue@[k].0] == queue@[k].1,
                        self.field_ranked(f, targets@, lv, now),
                        forall|c: Point| #[trigger] lv.dom().contains(c) ==> on_board(c, self.width, self.height) && f.at(c) is Some,
                        forall|k: int| 0 <= k < queue@.len() && f.at((#[trigger] queue@[k]).0) is None ==> queue@[k].1 == 0,
                    decreases cands@.len() - j,
                {
                    let (prev, dir) = cands[j];
                    let ghost f0 = f;
                    let ghost qb = queue@;
                    proof {
                        marked.lemma_size_bound();
                    }
                    self.try_arrow(&mut f, &mut marked, &mut queue, targets, prev, dir, curr, dist, now);
                    proof {
                        assert forall|k: int| 0 <= k < qb.len() implies queue@[k] == qb[k] by {
                            assert(queue@.subrange(0, qb.len() as int)[k] == qb[k]);
                        }
                        let lv0 = lv;
                        if self.arrow_taken(f0, targets@, prev, dir, curr, dist, now) {
                            assert(curr == qb[head - 1].0 && dist == qb[head - 1].1);
                            assert((targets@.contains(curr) && dist == 0) || (f0.at(curr) is Some && lv0.dom().contains(curr) && lv0[curr]
                                == dist)) by {
                                if f0.at(curr) is None {
                                    assert(targets@.contains(qb[head - 1].0));
                                }
                            }
                            self.lemma_rank_step(f0, f, lv0, qb, queue@, targets@, prev, dir, curr, dist, now);
                            lv = lv.insert(prev, (dist + 1) as nat);
                        }
                        assert(self.field_ranked(f, targets@, lv, now));
                        assert forall|c: Point| on_board(c, self.width, self.height) && #[trigger] f0.at(c) is Some implies f.at(c) is Some by {}
                        assert forall|c: Point| #[trigger] in_queue(qb, c) implies in_queue(queue@, c) by {
                            let k = choose|k: int| 0 <= k < qb.len() && #[trigger] qb[k].0 == c;
                            assert(queue@[k] == qb[k]);
                        }
                        assert forall|c: Point| #[trigger] f.at(c) is Some && on_board(c, self.width, self.height) implies in_queue(queue@, c) by {
                            if f0.at(c) is Some {
                                assert(in_queue(qb, c));
                            } else {
                                assert(c == prev);
                                assert(queue@[qb.len() as int].0 == prev);
                            }
                        }
                        if ws {
                            if self.flow_pred(prev, dir, curr, now) {
                                assert(self.safe_at(prev, (dist + 1) as u16, 3, now));
                            }
                            assert forall|i: int| 0 <= i < j + 1 && #[trigger] self.flow_pred(cands@[i].0, cands@[i].1, curr, now) implies f.at(
                                cands@[i].0,
                            ) is Some || targets@.contains(cands@[i].0) by {
                                if i < j {
                                    assert(f0.at(cands@[i].0) is Some || targets@.contains(cands@[i].0));
                                }
                            }
                            assert forall|p: Point, dir2: Direction| #[trigger] self.flow_pred(p, dir2, curr, now) && dir_index_of(dir2) < d
                                implies f.at(p) is Some || targets@.contains(p) by {
                                assert(f0.at(p) is Some || targets@.contains(p));
                            }
                            assert forall|k: int| 0 <= k < head - 1 implies self.flow_closed(f, targets@, #[trigger] queue@[k].0, now) by {
                                assert(queue@[k] == qb[k]);
                                assert(self.flow_closed(f0, targets@, qb[k].0, now));
                                assert forall|p: Point, dir2: Direction| #[trigger] self.flow_pred(p, dir2, queue@[k].0, now)
                                    implies f.at(p) is Some || targets@.contains(p) by {
                                    assert(f0.at(p) is Some || targets@.contains(p));
                                }
                            }
                        }
                    }
                    j = j + 1;
                }
                proof {
                    if ws {
                        assert forall|p: Point, dir2: Direction| #[trigger] self.flow_pred(p, dir2, curr, now) && dir_index_of(dir2) < d + 1
                            implies f.at(p) is Some || targets@.contains(p) by {
                            if dir_index_of(dir2) == d {
                                assert(dir2 == hd);
                                self.lemma_candidates_complete(p, dir2, curr, now);
                                let i = choose|i: int| 0 <= i < cands@.len() && cands@[i] == (p, dir2);
                                assert(self.flow_pred(cands@[i].0, cands@[i].1, curr, now));
                            }
                        }
                    }
                }
                d = d + 1;
            }
            proof {
                marked.lemma_size_bound();
                if ws {
                    assert forall|k: int| 0 <= k < head implies self.flow_closed(f, targets@, #[trigger] queue@[k].0, now) by {
                        if k == head - 1 {
                            assert forall|p: Point, dir2: Direction| #[trigger] self.flow_pred(p, dir2, queue@[k].0, now)
                                implies f.at(p) is Some || targets@.contains(p) by {
                                assert(dir_index_of(dir2) < 4);
                            }
                        }
                    }
                }
            }
        }
        proof {
            if ws {
                assert forall|ps: Seq<Point>, i: int|
                    #![trigger self.flow_route(targets@, ps, now), ps[i]]
                    self.flow_route(targets@, ps, now) && 0 <= i < ps.len() implies f.at(ps[i]) is Some || targets@.contains(ps[i]) by {
                    self.lemma_route_covered(f, targets@, queue@, ps, i, now);
                }
            }
        }
        f
    }
}

/// A flow field towards `targets` now, by the system clock: what
/// `Game::generate_flow_field_at` gives for the time the clock reads.
pub fn generate_flow_field(game: &Game, targets: &Vec<Point>) -> (r: Grid<Option<Direction>>)
    requires
        game.wf(),
        (game.width as int) * (game.height as int) < 65535,
        forall|i: int| 0 <= i < targets@.len() ==> on_board(#[trigger] targets@[i], game.width, game.height),
    ensures
        r.wf(),
        r.width() == game.width,
        r.height() == game.height,
        exists|now: u64| #[trigger] game.field_sound(r, targets@, now) && game.field_complete(r, targets@, now) && exists|
            lv: Map<Point, nat>,
        | #[trigger] game.field_ranked(r, targets@, lv, now),
{
    let now = crate::clock::now_millis() / 1000;
    let r = game.generate_flow_field_at(targets, now);
    assert(game.field_sound(r, targets@, now) && game.field_complete(r, targets@, now));
    r
}

} // verus!
