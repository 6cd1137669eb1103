use crate::pointset::PointSet;
use crate::rng::{gen_range_u16, gen_range_usize, gen_ratio};
use rand::rngs::StdRng;
use crate::snake::Point;
use crate::game::Game;
use vstd::prelude::*;
use vstd::wrapping::u64_specs::{wrapping_add, wrapping_mul};

verus! {

/// One step of the linear congruential generator that places the obstacles
/// of the procedural campaign levels.
pub open spec fn lcg_next(state: u64) -> u64 {
    wrapping_add(wrapping_mul(state, 6_364_136_223_846_793_005u64), 1u64)
}

/// The number the generator hands out after a step: the high half of the state.
pub open spec fn lcg_out(state: u64) -> u64 {
    state >> 32u64
}

/// The generator's seed for a campaign level on a `w` by `h` board.
pub open spec fn campaign_seed(level: u32, w: u16, h: u16) -> u64 {
    wrapping_add(
        wrapping_add(wrapping_mul(level as u64, 12_345_678_901u64), wrapping_mul(w as u64, 987_654_321u64)),
        wrapping_mul(h as u64, 135_792_468u64),
    )
}

/// The width of the band, two cells in from each side wall, where the
/// procedural levels put obstacles (at least one column).
pub open spec fn band(dim: u16) -> u16 {
    if dim >= 5 { (dim - 4) as u16 } else { 1 }
}

/// Whether a cell is more than two cells away from the centre in some axis.
pub open spec fn off_centre(x: u16, y: u16, w: u16, h: u16) -> bool {
    (x - w / 2 > 2 || w / 2 - x > 2) || (y - h / 2 > 2 || h / 2 - y > 2)
}

/// The obstacles placed by one round of the procedural generator, with the
/// state after the round: a cell in the band, kept only off the centre, and
/// three times in ten a neighbour to its right (or, failing that, below it).
pub open spec fn campaign_round(state: u64, w: u16, h: u16) -> (Set<Point>, u64) {
    let s1 = lcg_next(state);
    let s2 = lcg_next(s1);
    let x = (2 + lcg_out(s1) % (band(w) as u64)) as u16;
    let y = (2 + lcg_out(s2) % (band(h) as u64)) as u16;
    if off_centre(x, y, w, h) {
        let s3 = lcg_next(s2);
        let base = set![Point { x, y }];
        if lcg_out(s3) % 100 < 30 {
            let s4 = lcg_next(s3);
            if lcg_out(s4) % 100 < 50 && x + 1 < w - 2 {
                (base.insert(Point { x: (x + 1) as u16, y }), s4)
            } else if y + 1 < h - 2 {
                (base.insert(Point { x, y: (y + 1) as u16 }), s4)
            } else {
                (base, s4)
            }
        } else {
            (base, s3)
        }
    } else {
        (Set::empty(), s2)
    }
}

/// The obstacles of `n` rounds of the procedural generator, with the final state.
pub open spec fn campaign_rounds(n: nat, state: u64, w: u16, h: u16) -> (Set<Point>, u64)
    decreases n,
{
    if n == 0 {
        (Set::empty(), state)
    } else {
        let (prev, s) = campaign_rounds((n - 1) as nat, state, w, h);
        let (added, s2) = campaign_round(s, w, h);
        (prev.union(added), s2)
    }
}

/// The obstacles of campaign level `level` on a `w` by `h` board: none on
/// level 1, a bar of up to five cells across the middle on level 2, a plus
/// sign at the centre on level 3, and from level 4 on the procedural layout
/// with `min(10 + 2 * level, 50)` rounds.
pub open spec fn campaign_layout(level: u32, w: u16, h: u16) -> Set<Point> {
    if level == 1 {
        Set::empty()
    } else if level == 2 {
        let y = h / 2;
        let sx = if w / 2 >= 3 { (w / 2 - 2) as u16 } else { 1u16 };
        let ex = if w / 2 + 2 <= w - 2 { (w / 2 + 2) as u16 } else { (w - 2) as u16 };
        Set::new(|p: Point| p.y == y && sx <= p.x <= ex)
    } else if level == 3 {
        let cx = w / 2;
        let cy = h / 2;
        set![
            Point { x: cx, y: cy },
            Point { x: if cx >= 2 { (cx - 1) as u16 } else { 1u16 }, y: cy },
            Point { x: (cx + 1) as u16, y: cy },
            Point { x: cx, y: if cy >= 2 { (cy - 1) as u16 } else { 1u16 } },
            Point { x: cx, y: (cy + 1) as u16 },
        ]
    } else {
        let n = if 10 + 2 * level <= 50 { (10 + 2 * level) as nat } else { 50nat };
        campaign_rounds(n, campaign_seed(level, w, h), w, h).0
    }
}

fn lcg_step(state: u64) -> (r: (u64, u64))
    ensures
        r.0 == lcg_next(state),
        r.1 == lcg_out(r.0),
{
    let s = state.wrapping_mul(6_364_136_223_846_793_005u64).wrapping_add(1);
    (s, s >> 32)
}

/// The obstacles of a campaign level (see `campaign_layout`). Boards narrower
/// or shorter than three cells cannot hold the level-3 cross and are left out.
pub fn campaign_obstacles(level: u32, width: u16, height: u16) -> (r: PointSet)
    requires
        width >= 3,
        height >= 3,
    ensures
        r.wf(),
        r.w() == width,
        r.h() == height,
        r@ == campaign_layout(level, width, height),
{
    let mut obstacles = PointSet::new(width, height);
    if level == 1 {
        assert(obstacles@ =~= campaign_layout(level, width, height));
        return obstacles;
    } else if level == 2 {
        let y = height / 2;
        let start_x = if width / 2 >= 3 { width / 2 - 2 } else { 1 };
        let end_x = if width / 2 + 2 <= width - 2 { width / 2 + 2 } else { width - 2 };
        let mut x = start_x;
        while x <= end_x
            invariant
                obstacles.wf(),
                obstacles.w() == width,
                obstacles.h() == height,
                y == height / 2,
                height >= 3,
                end_x <= width - 2,
                start_x <= x <= end_x + 1,
                forall|p: Point| obstacles.has(p) <==> (p.y == y && start_x <= p.x < x),
            decreases end_x + 1 - x,
        {
            obstacles.insert(Point { x, y });
            x = x + 1;
        }
        assert(obstacles@ =~= campaign_layout(level, width, height));
        return obstacles;
    } else if level == 3 {
        let cx = width / 2;
        let cy = height / 2;
        obstacles.insert(Point { x: cx, y: cy });
        obstacles.insert(Point { x: if cx >= 2 { cx - 1 } else { 1 }, y: cy });
        obstacles.insert(Point { x: cx + 1, y: cy });
        obstacles.insert(Point { x: cx, y: if cy >= 2 { cy - 1 } else { 1 } });
        obstacles.insert(Point { x: cx, y: cy + 1 });
        assert(obstacles@ =~= campaign_layout(level, width, height));
        return obstacles;
    }
    let num: u32 = if level <= 20 { 10 + 2 * level } else { 50 };
    let margin: u16 = 2;
    let safe_w: u16 = if width >= 5 { width - 4 } else { 1 };
    let safe_h: u16 = if height >= 5 { height - 4 } else { 1 };
    let mut state: u64 = (level as u64).wrapping_mul(12_345_678_901u64).wrapping_add(
        (width as u64).wrapping_mul(987_654_321u64),
    ).wrapping_add((height as u64).wrapping_mul(135_792_468u64));
    let ghost seed = state;
    let mut k: u32 = 0;
    while k < num
        invariant
            width >= 3,
            height >= 3,
            safe_w == band(width),
            safe_h == band(height),
            margin == 2,
            k <= num,
            obstacles.wf(),
            obstacles.w() == width,
            obstacles.h() == height,
            (obstacles@, state) == campaign_rounds(k as nat, seed, width, height),
        decreases num - k,
    {
        let ghost before = obstacles@;
        let ghost s0 = state;
        let (s1, r1) = lcg_step(state);
        let (s2, r2) = lcg_step(s1);
        state = s2;
        let x = margin + (r1 % (safe_w as u64)) as u16;
        assert(r2 % (safe_h as u64) < safe_h as u64);
        let y = margin + (r2 % (safe_h as u64)) as u16;
        assert(y < height);
        let start_x = width / 2;
        let start_y = height / 2;
        let dist_x = if x >= start_x { x - start_x } else { start_x - x };
        let dist_y = if y >= start_y { y - start_y } else { start_y - y };
        if dist_x > 2 || dist_y > 2 {
            obstacles.insert(Point { x, y });
            let (s3, r3) = lcg_step(state);
            state = s3;
            if r3 % 100 < 30 {
                let (s4, r4) = lcg_step(state);
                state = s4;
                if r4 % 100 < 50 && x + 1 < width - margin {
                    obstacles.insert(Point { x: x + 1, y });
                } else if y + 1 < height - margin {
                    obstacles.insert(Point { x, y: y + 1 });
                }
            }
        }
        proof {
            let (added, ns) = campaign_round(s0, width, height);
            assert(obstacles@ =~= before.union(added));
        }
        k = k + 1;
    }
    assert(num as nat == (if 10 + 2 * level <= 50 { (10 + 2 * level) as nat } else { 50nat }));
    obstacles
}

/// Every cell of the procedural generator lies in the band two cells in from
/// the walls, and none lies within one cell of the centre.
pub proof fn lemma_campaign_rounds_placement(n: nat, state: u64, w: u16, h: u16, p: Point)
    requires
        w >= 5,
        h >= 5,
        campaign_rounds(n, state, w, h).0.contains(p),
    ensures
        2 <= p.x <= w - 3,
        2 <= p.y <= h - 3,
        !(p.x - w / 2 <= 1 && w / 2 - p.x <= 1 && p.y - h / 2 <= 1 && h / 2 - p.y <= 1),
    decreases n,
{
    let (prev, s) = campaign_rounds((n - 1) as nat, state, w, h);
    if prev.contains(p) {
        lemma_campaign_rounds_placement((n - 1) as nat, state, w, h, p);
    }
}

/// On boards of at least 5 by 5, no campaign level from 4 on puts an obstacle
/// on a wall, next to a wall, or within one cell of the centre, where the
/// snake starts.
pub proof fn lemma_campaign_layout_clear(level: u32, w: u16, h: u16, p: Point)
    requires
        w >= 5,
        h >= 5,
        level >= 4,
        campaign_layout(level, w, h).contains(p),
    ensures
        2 <= p.x <= w - 3,
        2 <= p.y <= h - 3,
        !(p.x - w / 2 <= 1 && w / 2 - p.x <= 1 && p.y - h / 2 <= 1 && h / 2 - p.y <= 1),
{
    let n = if 10 + 2 * level <= 50 { (10 + 2 * level) as nat } else { 50nat };
    lemma_campaign_rounds_placement(n, campaign_seed(level, w, h), w, h, p);
}

/// `p` lies within `r` cells of `(cx, cy)` in both axes.
pub open spec fn near(p: Point, cx: u16, cy: u16, r: u16) -> bool {
    p.x - cx <= r && cx - p.x <= r && p.y - cy <= r && cy - p.y <= r
}

/// `p` lies in the rectangle `[x0, x1] x [y0, y1]`.
pub open spec fn in_rect(p: Point, x0: int, x1: int, y0: int, y1: int) -> bool {
    x0 <= p.x <= x1 && y0 <= p.y <= y1
}

/// A cell of the interior `[1, w-2] x [1, h-2]` of a `w` by `h` board with
/// both coordinates even: a maze never carves it.
pub open spec fn maze_pillar(p: Point, w: u16, h: u16) -> bool {
    in_rect(p, 1, w - 2, 1, h - 2) && p.x % 2 == 0 && p.y % 2 == 0
}

/// A cell of the first interior column or row of a `w` by `h` board.
pub open spec fn first_line(p: Point, w: u16, h: u16) -> bool {
    in_rect(p, 1, w - 2, 1, h - 2) && (p.x == 1 || p.y == 1)
}

/// Removes every cell within `r` of `(cx, cy)` that lies in `[x0, x1] x [y0, y1]`.
fn clear_around(obstacles: &mut PointSet, cx: u16, cy: u16, r: u16, x0: u16, x1: u16, y0: u16, y1: u16)
    requires
        old(obstacles).wf(),
        r <= 3,
    ensures
        final(obstacles).wf(),
        final(obstacles).w() == old(obstacles).w(),
        final(obstacles).h() == old(obstacles).h(),
        forall|p: Point| #[trigger] final(obstacles).has(p) == (old(obstacles).has(p) && !(near(p, cx, cy, r) && in_rect(p, x0 as int, x1 as int, y0 as int, y1 as int))),
{
    let lo_y: i32 = cy as i32 - r as i32;
    let hi_y: i32 = cy as i32 + r as i32;
    let lo_x: i32 = cx as i32 - r as i32;
    let hi_x: i32 = cx as i32 + r as i32;
    let mut y: i32 = lo_y;
    while y <= hi_y
        invariant
            obstacles.wf(),
            obstacles.w() == old(obstacles).w(),
            obstacles.h() == old(obstacles).h(),
            lo_y == cy - r,
            hi_y == cy + r,
            lo_x == cx - r,
            hi_x == cx + r,
            lo_y <= y <= hi_y + 1,
            forall|p: Point| #[trigger] obstacles.has(p) == (old(obstacles).has(p) && !(near(p, cx, cy, r) && in_rect(p, x0 as int, x1 as int, y0 as int, y1 as int) && p.y < y)),
        decreases hi_y + 1 - y,
    {
        let mut x: i32 = lo_x;
        while x <= hi_x
            invariant
                obstacles.wf(),
                obstacles.w() == old(obstacles).w(),
                obstacles.h() == old(obstacles).h(),
                lo_y == cy - r,
                hi_y == cy + r,
                lo_x == cx - r,
                hi_x == cx + r,
                lo_y <= y <= hi_y,
                lo_x <= x <= hi_x + 1,
                forall|p: Point| #[trigger] obstacles.has(p) == (old(obstacles).has(p) && !(near(p, cx, cy, r) && in_rect(p, x0 as int, x1 as int, y0 as int, y1 as int) && (p.y < y || (p.y == y && p.x < x)))),
            decreases hi_x + 1 - x,
        {
            if x >= x0 as i32 && x <= x1 as i32 && y >= y0 as i32 && y <= y1 as i32 {
                obstacles.remove(Point { x: x as u16, y: y as u16 });
            }
            x = x + 1;
        }
        y = y + 1;
    }
}

/// A cell of the interior `[1, w-2] x [1, h-2]` of a `w` by `h` board with
/// both coordinates odd: the cells a maze search walks over.
pub open spec fn maze_cell(p: Point, w: u16, h: u16) -> bool {
    in_rect(p, 1, w - 2, 1, h - 2) && p.x % 2 == 1 && p.y % 2 == 1
}

/// The cell two steps from `c` in heading `d` (north, south, west, east), when
/// it lies in `[1, mx] x [1, my]`.
pub open spec fn maze_next(c: Point, d: int, mx: int, my: int) -> Option<Point> {
    let nx: int = if d == 2 { c.x - 2 } else if d == 3 { c.x + 2 } else { c.x as int };
    let ny: int = if d == 0 { c.y - 2 } else if d == 1 { c.y + 2 } else { c.y as int };
    if 0 < nx <= mx && 0 < ny <= my {
        Some(Point { x: nx as u16, y: ny as u16 })
    } else {
        None
    }
}

/// Every cell two steps from `c` that lies in `[1, mx] x [1, my]` is open.
pub open spec fn maze_around_open(obs: PointSet, c: Point, mx: int, my: int) -> bool {
    forall|d: int| 0 <= d < 4 && #[trigger] maze_next(c, d, mx, my) is Some ==> !obs.has(maze_next(c, d, mx, my)->0)
}

/// Every open cell with both coordinates odd in `[1, mx] x [1, my]` has all
/// such cells two steps away open.
pub open spec fn maze_closed(obs: PointSet, mx: int, my: int) -> bool {
    forall|c: Point|
        #![trigger obs.has(c)]
        c.x % 2 == 1 && c.y % 2 == 1 && 1 <= c.x <= mx && 1 <= c.y <= my && !obs.has(c) ==> maze_around_open(obs, c, mx, my)
}

/// From an open odd cell, walking `k` double steps in heading `d` over a
/// closed set stays on open cells while it stays in range.
proof fn lemma_maze_walk(obs: PointSet, mx: int, my: int, c: Point, d: int, k: nat)
    requires
        maze_closed(obs, mx, my),
        0 <= d < 4,
        c.x % 2 == 1 && c.y % 2 == 1 && 1 <= c.x <= mx && 1 <= c.y <= my,
        !obs.has(c),
        mx < 65535 && my < 65535,
    ensures
        ({
            let nx: int = if d == 2 { c.x - 2 * k } else if d == 3 { c.x + 2 * k } else { c.x as int };
            let ny: int = if d == 0 { c.y - 2 * k } else if d == 1 { c.y + 2 * k } else { c.y as int };
            1 <= nx <= mx && 1 <= ny <= my ==> !obs.has(Point { x: nx as u16, y: ny as u16 })
        }),
    decreases k,
{
    if k > 0 {
        lemma_maze_walk(obs, mx, my, c, d, (k - 1) as nat);
        let px: int = if d == 2 { c.x - 2 * (k - 1) } else if d == 3 { c.x + 2 * (k - 1) } else { c.x as int };
        let py: int = if d == 0 { c.y - 2 * (k - 1) } else if d == 1 { c.y + 2 * (k - 1) } else { c.y as int };
        let nx: int = if d == 2 { c.x - 2 * k } else if d == 3 { c.x + 2 * k } else { c.x as int };
        let ny: int = if d == 0 { c.y - 2 * k } else if d == 1 { c.y + 2 * k } else { c.y as int };
        if 1 <= nx <= mx && 1 <= ny <= my {
            let q = Point { x: px as u16, y: py as u16 };
            assert(1 <= px <= mx && 1 <= py <= my);
            assert(q.x == px && q.y == py);
            assert(!obs.has(q));
            assert(q.x % 2 == 1 && q.y % 2 == 1);
            assert(maze_around_open(obs, q, mx, my));
            assert(maze_next(q, d, mx, my) == Some(Point { x: nx as u16, y: ny as u16 }));
        }
    }
}

/// `a` and `b` are side by side: one step apart in a row or a column.
pub open spec fn adjacent(a: Point, b: Point) -> bool {
    (a.x == b.x && (a.y + 1 == b.y || b.y + 1 == a.y)) || (a.y == b.y && (a.x + 1 == b.x || b.x + 1 == a.x))
}

/// `path` is a walk of side-by-side steps over open interior cells of the
/// `w` by `h` board with walls `obs`.
pub open spec fn open_path(obs: PointSet, w: u16, h: u16, path: Seq<Point>) -> bool {
    &&& path.len() >= 1
    &&& forall|i: int| 0 <= i < path.len() ==> in_rect(#[trigger] path[i], 1, w - 2, 1, h - 2) && !obs.has(path[i])
    &&& forall|i: int| 0 <= i < path.len() - 1 ==> adjacent(#[trigger] path[i], path[i + 1])
}

/// Some open path leads from `a` to `b`.
pub open spec fn linked(obs: PointSet, w: u16, h: u16, a: Point, b: Point) -> bool {
    exists|path: Seq<Point>| #[trigger] open_path(obs, w, h, path) && path[0] == a && path.last() == b
}

/// Some open path leads from `c` to every open interior cell: the open
/// cells form one connected region.
pub open spec fn links_all(obs: PointSet, w: u16, h: u16, c: Point) -> bool {
    forall|p: Point| in_rect(p, 1, w - 2, 1, h - 2) && !obs.has(p) ==> #[trigger] linked(obs, w, h, c, p)
}

/// A link stays when walls only go.
proof fn lemma_linked_keep(o1: PointSet, o2: PointSet, w: u16, h: u16, a: Point, b: Point)
    requires
        linked(o1, w, h, a, b),
        forall|q: Point| #[trigger] o2.has(q) ==> o1.has(q),
    ensures
        linked(o2, w, h, a, b),
{
    let path = choose|path: Seq<Point>| #[trigger] open_path(o1, w, h, path) && path[0] == a && path.last() == b;
    assert forall|i: int| 0 <= i < path.len() implies in_rect(#[trigger] path[i], 1, w - 2, 1, h - 2) && !o2.has(path[i]) by {
        assert(!o1.has(path[i]));
    }
    assert(open_path(o2, w, h, path));
}

/// A link to `b` extends by a step to an open interior cell beside `b`.
proof fn lemma_linked_step(o: PointSet, w: u16, h: u16, a: Point, b: Point, c: Point)
    requires
        linked(o, w, h, a, b),
        adjacent(b, c),
        in_rect(c, 1, w - 2, 1, h - 2),
        !o.has(c),
    ensures
        linked(o, w, h, a, c),
{
    let path = choose|path: Seq<Point>| #[trigger] open_path(o, w, h, path) && path[0] == a && path.last() == b;
    let np = path.push(c);
    assert forall|i: int| 0 <= i < np.len() implies in_rect(#[trigger] np[i], 1, w - 2, 1, h - 2) && !o.has(np[i]) by {
        if i < path.len() {
            assert(np[i] == path[i]);
        }
    }
    assert forall|i: int| 0 <= i < np.len() - 1 implies adjacent(#[trigger] np[i], np[i + 1]) by {
        if i < path.len() - 1 {
            assert(np[i] == path[i] && np[i + 1] == path[i + 1]);
        } else {
            assert(np[i] == b && np[i + 1] == c);
        }
    }
    assert(open_path(o, w, h, np));
    assert(np[0] == a && np.last() == c);
}

/// A cell of the open box `[x0, x1] x [y0, y1]` inside the board links to
/// every other cell of the box that `a` links to one of.
proof fn lemma_box_linked(o: PointSet, w: u16, h: u16, a: Point, c: Point, p: Point, x0: int, x1: int, y0: int, y1: int)
    requires
        linked(o, w, h, a, c),
        in_rect(c, x0, x1, y0, y1),
        in_rect(p, x0, x1, y0, y1),
        1 <= x0 && x1 <= w - 2 && 1 <= y0 && y1 <= h - 2,
        forall|q: Point| in_rect(q, x0, x1, y0, y1) ==> !#[trigger] o.has(q),
    ensures
        linked(o, w, h, a, p),
    decreases (if p.x >= c.x { p.x - c.x } else { c.x - p.x }) + (if p.y >= c.y { p.y - c.y } else { c.y - p.y }),
{
    if p != c {
        let prev = if p.x > c.x {
            Point { x: (p.x - 1) as u16, y: p.y }
        } else if p.x < c.x {
            Point { x: (p.x + 1) as u16, y: p.y }
        } else if p.y > c.y {
            Point { x: p.x, y: (p.y - 1) as u16 }
        } else {
            Point { x: p.x, y: (p.y + 1) as u16 }
        };
        lemma_box_linked(o, w, h, a, c, prev, x0, x1, y0, y1);
        assert(!o.has(p));
        lemma_linked_step(o, w, h, a, prev, p);
    }
}

/// A closed set with one open odd cell `s` leaves every odd cell in range open.
proof fn lemma_maze_all_open(obs: PointSet, mx: int, my: int, s: Point)
    requires
        maze_closed(obs, mx, my),
        s.x % 2 == 1 && s.y % 2 == 1 && 1 <= s.x <= mx && 1 <= s.y <= my,
        !obs.has(s),
        mx < 65535 && my < 65535,
    ensures
        forall|p: Point| p.x % 2 == 1 && p.y % 2 == 1 && 1 <= p.x <= mx && 1 <= p.y <= my ==> !#[trigger] obs.has(p),
{
    assert forall|p: Point| p.x % 2 == 1 && p.y % 2 == 1 && 1 <= p.x <= mx && 1 <= p.y <= my implies !#[trigger] obs.has(p) by {
        let m = Point { x: p.x, y: s.y };
        if p.x >= s.x {
            lemma_maze_walk(obs, mx, my, s, 3, ((p.x - s.x) / 2) as nat);
        } else {
            lemma_maze_walk(obs, mx, my, s, 2, ((s.x - p.x) / 2) as nat);
        }
        assert(!obs.has(m));
        if p.y >= s.y {
            lemma_maze_walk(obs, mx, my, m, 1, ((p.y - s.y) / 2) as nat);
        } else {
            lemma_maze_walk(obs, mx, my, m, 0, ((s.y - p.y) / 2) as nat);
        }
    }
}

impl Game {
    /// A maze: the interior `[1, w-2] x [1, h-2]` filled with walls, then carved
    /// by a randomised depth-first search over the odd cells, and the cells within
    /// two of the centre cleared for the snake. The search only opens cells
    /// with an odd coordinate, so every interior cell with both coordinates
    /// even (see `maze_pillar`) away from the centre stays a wall; and it walks
    /// until every cell with both coordinates odd (see `maze_cell`) is open.
    /// The open cells inside the walls form one connected region (see
    /// `links_all`).
    pub fn generate_maze_obstacles(width: u16, height: u16, rng: &mut StdRng) -> (r: PointSet)
        ensures
            r.wf(),
            r.w() == width,
            r.h() == height,
            forall|p: Point| #[trigger] r.has(p) ==> in_rect(p, 1, width - 2, 1, height - 2),
            forall|p: Point| near(p, width / 2, height / 2, 2) && in_rect(p, 1, width - 2, 1, height - 2) ==> !#[trigger] r.has(p),
            forall|p: Point| maze_pillar(p, width, height) && !near(p, width / 2, height / 2, 2) ==> #[trigger] r.has(p),
            width >= 3 && height >= 3 ==> forall|p: Point| maze_cell(p, width, height) ==> !#[trigger] r.has(p),
        width >= 3 && height >= 3 ==> exists|c: Point| #[trigger] links_all(r, width, height, c),
    {
        let ghost big = width >= 3 && height >= 3;
        let mut obstacles = fill_interior(width, height);
        let max_x: u16 = if width >= 2 { width - 2 } else { 0 };
        let max_y: u16 = if height >= 2 { height - 2 } else { 0 };
        let start_x = width / 2;
        let start_y = height / 2;
        let hx: u16 = if max_x / 2 > 1 { max_x / 2 } else { 1 };
        let hy: u16 = if max_y / 2 > 1 { max_y / 2 } else { 1 };
        let start_maze_x = gen_range_u16(rng, 1, hx + 1) * 2 - 1;
        let start_maze_y = gen_range_u16(rng, 1, hy + 1) * 2 - 1;
        let ghost mx: int = max_x as int;
        let ghost my: int = max_y as int;
        let s0 = Point { x: start_maze_x, y: start_maze_y };
        let mut stack: Vec<Point> = Vec::new();
        stack.push(s0);
        obstacles.remove(s0);
        proof {
            if big {
                assert(1 <= s0.x <= mx && 1 <= s0.y <= my);
                assert forall|p: Point| in_rect(p, 1, width - 2, 1, height - 2) && !obstacles.has(p) implies #[trigger] linked(
                    obstacles,
                    width,
                    height,
                    s0,
                    p,
                ) by {
                    assert(p == s0);
                    let path = seq![s0];
                    assert(open_path(obstacles, width, height, path));
                }
            }
            assert forall|c: Point|
                #![trigger obstacles.has(c)]
                c.x % 2 == 1 && c.y % 2 == 1 && 1 <= c.x <= mx && 1 <= c.y <= my && !obstacles.has(c) && !stack@.contains(c)
                    implies maze_around_open(obstacles, c, mx, my) by {
                assert(c != s0) by {
                    assert(stack@[0] == s0);
                }
            }
        }
        while stack.len() > 0
            invariant
                mx == max_x as int,
                my == max_y as int,
                !obstacles.has(s0),
                forall|k: int| 0 <= k < stack@.len() ==> !obstacles.has(#[trigger] stack@[k]),
                forall|c: Point|
                    #![trigger obstacles.has(c)]
                    c.x % 2 == 1 && c.y % 2 == 1 && 1 <= c.x <= mx && 1 <= c.y <= my && !obstacles.has(c) && !stack@.contains(c)
                        ==> maze_around_open(obstacles, c, mx, my),
                obstacles.wf(),
                obstacles.w() == width,
                obstacles.h() == height,
                max_x == (if width >= 2 { width - 2 } else { 0 }),
                max_y == (if height >= 2 { height - 2 } else { 0 }),
                forall|p: Point| #[trigger] obstacles.has(p) ==> in_rect(p, 1, max_x as int, 1, max_y as int),
                forall|p: Point| maze_pillar(p, width, height) ==> #[trigger] obstacles.has(p),
                forall|k: int| 0 <= k < stack@.len() ==> (#[trigger] stack@[k]).x % 2 == 1 && stack@[k].y % 2 == 1,
                big == (width >= 3 && height >= 3),
                big ==> forall|k: int| 0 <= k < stack@.len() ==> in_rect(#[trigger] stack@[k], 1, mx, 1, my),
                big ==> forall|p: Point| in_rect(p, 1, width - 2, 1, height - 2) && !obstacles.has(p) ==> #[trigger] linked(
                    obstacles,
                    width,
                    height,
                    s0,
                    p,
                ),
            decreases 2 * obstacles.size() + stack@.len(),
        {
            let current = stack[stack.len() - 1];
            let mut neighbors: Vec<(Point, Point)> = Vec::new();
            let mut di: usize = 0;
            while di < 4
                invariant
                    obstacles.wf(),
                    max_x == (if width >= 2 { width - 2 } else { 0 }),
                    max_y == (if height >= 2 { height - 2 } else { 0 }),
                    di <= 4,
                    current.x % 2 == 1 && current.y % 2 == 1,
                    forall|i: int| 0 <= i < neighbors@.len() ==> obstacles.has(#[trigger] neighbors@[i].0),
                    forall|i: int| 0 <= i < neighbors@.len() ==> (#[trigger] neighbors@[i]).0.x % 2 == 1 && neighbors@[i].0.y % 2 == 1
                        && (neighbors@[i].1.x % 2 == 1 || neighbors@[i].1.y % 2 == 1)
                        && !(neighbors@[i].1.x % 2 == 1 && neighbors@[i].1.y % 2 == 1),
                    mx == max_x as int,
                    my == max_y as int,
                    neighbors@.len() == 0 ==> forall|d: int| 0 <= d < di && #[trigger] maze_next(current, d, mx, my) is Some
                        ==> !obstacles.has(maze_next(current, d, mx, my)->0),
                    big ==> in_rect(current, 1, mx, 1, my),
                    forall|i: int| 0 <= i < neighbors@.len() ==> adjacent(current, (#[trigger] neighbors@[i]).1) && adjacent(
                        neighbors@[i].1,
                        neighbors@[i].0,
                    ) && in_rect(neighbors@[i].0, 1, mx, 1, my) && (big ==> in_rect(neighbors@[i].1, 1, mx, 1, my)),
                decreases 4 - di,
            {
                let (dx, dy): (i32, i32) = if di == 0 { (0, -2) } else if di == 1 { (0, 2) } else if di == 2 { (-2, 0) } else { (2, 0) };
                let nx: i32 = current.x as i32 + dx;
                let ny: i32 = current.y as i32 + dy;
                if nx > 0 && nx <= max_x as i32 && ny > 0 && ny <= max_y as i32 {
                    let next_p = Point { x: nx as u16, y: ny as u16 };
                    if obstacles.contains(next_p) {
                        let wall_p = Point { x: (current.x as i32 + dx / 2) as u16, y: (current.y as i32 + dy / 2) as u16 };
                        neighbors.push((next_p, wall_p));
                    }
                }
                di = di + 1;
            }
            if neighbors.len() == 0 {
                let ghost st0 = stack@;
                let _ = stack.pop();
                proof {
                    assert(stack@ == st0.drop_last());
                    assert forall|c: Point|
                        #![trigger obstacles.has(c)]
                        c.x % 2 == 1 && c.y % 2 == 1 && 1 <= c.x <= mx && 1 <= c.y <= my && !obstacles.has(c) && !stack@.contains(c)
                            implies maze_around_open(obstacles, c, mx, my) by {
                        if c != current {
                            assert(!st0.contains(c)) by {
                                if st0.contains(c) {
                                    let k = choose|k: int| 0 <= k < st0.len() && st0[k] == c;
                                    assert(k != st0.len() - 1);
                                    assert(stack@[k] == c);
                                }
                            }
                        }
                    }
                }
            } else {
                let k = gen_range_usize(rng, 0, neighbors.len());
                let (next_p, wall_p) = neighbors[k];
                let ghost ob0 = obstacles;
                let ghost st0 = stack@;
                proof {
                    if big {
                        assert(in_rect(current, 1, mx, 1, my)) by {
                            assert(stack@[stack@.len() - 1] == current);
                        }
                        assert(!ob0.has(current)) by {
                            assert(stack@[stack@.len() - 1] == current);
                        }
                        assert(linked(ob0, width, height, s0, current));
                    }
                }
                obstacles.remove(wall_p);
                assert(obstacles.has(next_p) || next_p == wall_p);
                obstacles.remove(next_p);
                stack.push(next_p);
                proof {
                    assert forall|q: Point| #[trigger] obstacles.has(q) implies ob0.has(q) by {}
                    assert forall|kk: int| 0 <= kk < stack@.len() implies !obstacles.has(#[trigger] stack@[kk]) by {
                        if kk < st0.len() {
                            assert(stack@[kk] == st0[kk]);
                            assert(!ob0.has(st0[kk]));
                        }
                    }
                    if big {
                        assert forall|kk: int| 0 <= kk < stack@.len() implies in_rect(#[trigger] stack@[kk], 1, mx, 1, my) by {
                            if kk < st0.len() {
                                assert(stack@[kk] == st0[kk]);
                            }
                        }
                        lemma_linked_keep(ob0, obstacles, width, height, s0, current);
                        lemma_linked_step(obstacles, width, height, s0, current, wall_p);
                        lemma_linked_step(obstacles, width, height, s0, wall_p, next_p);
                        assert forall|p: Point| in_rect(p, 1, width - 2, 1, height - 2) && !obstacles.has(p) implies #[trigger] linked(
                            obstacles,
                            width,
                            height,
                            s0,
                            p,
                        ) by {
                            if p != wall_p && p != next_p {
                                assert(!ob0.has(p));
                                assert(linked(ob0, width, height, s0, p));
                                lemma_linked_keep(ob0, obstacles, width, height, s0, p);
                            }
                        }
                    }
                    assert forall|c: Point|
                        #![trigger obstacles.has(c)]
                        c.x % 2 == 1 && c.y % 2 == 1 && 1 <= c.x <= mx && 1 <= c.y <= my && !obstacles.has(c) && !stack@.contains(c)
                            implies maze_around_open(obstacles, c, mx, my) by {
                        assert(c != next_p) by {
                            assert(stack@[stack@.len() - 1] == next_p);
                        }
                        assert(c != wall_p);
                        assert(!ob0.has(c));
                        assert(!st0.contains(c)) by {
                            if st0.contains(c) {
                                let kk = choose|kk: int| 0 <= kk < st0.len() && st0[kk] == c;
                                assert(stack@[kk] == c);
                            }
                        }
                        assert(maze_around_open(ob0, c, mx, my));
                        assert forall|d: int| 0 <= d < 4 && #[trigger] maze_next(c, d, mx, my) is Some implies !obstacles.has(
                            maze_next(c, d, mx, my)->0,
                        ) by {
                            assert(!ob0.has(maze_next(c, d, mx, my)->0));
                        }
                    }
                }
            }
        }
        proof {
            if width >= 3 && height >= 3 {
                assert(1 <= s0.x <= mx && 1 <= s0.y <= my);
                assert(s0.x % 2 == 1 && s0.y % 2 == 1);
                assert forall|c: Point|
                    #![trigger obstacles.has(c)]
                    c.x % 2 == 1 && c.y % 2 == 1 && 1 <= c.x <= mx && 1 <= c.y <= my && !obstacles.has(c)
                        implies maze_around_open(obstacles, c, mx, my) by {
                    assert(!stack@.contains(c));
                }
                lemma_maze_all_open(obstacles, mx, my, s0);
            }
        }
        let ghost ob1 = obstacles;
        let x1: u16 = max_x;
        let y1: u16 = max_y;
        clear_around(&mut obstacles, start_x, start_y, 2, 1, x1, 1, y1);
        proof {
            if width >= 3 && height >= 3 {
                assert forall|p: Point| maze_cell(p, width, height) implies !#[trigger] obstacles.has(p) by {
                    assert(!ob1.has(p));
                }
                let cx = start_x as int;
                let cy = start_y as int;
                let bx0: int = if cx - 2 > 1 { cx - 2 } else { 1 };
                let bx1: int = if cx + 2 < mx { cx + 2 } else { mx };
                let by0: int = if cy - 2 > 1 { cy - 2 } else { 1 };
                let by1: int = if cy + 2 < my { cy + 2 } else { my };
                let o = Point { x: (if cx % 2 == 1 { cx } else { cx - 1 }) as u16, y: (if cy % 2 == 1 { cy } else { cy - 1 }) as u16 };
                assert(in_rect(o, bx0, bx1, by0, by1));
                assert(maze_cell(o, width, height));
                assert(!ob1.has(o));
                assert(linked(ob1, width, height, s0, o));
                assert forall|q: Point| #[trigger] obstacles.has(q) implies ob1.has(q) by {}
                lemma_linked_keep(ob1, obstacles, width, height, s0, o);
                assert forall|q: Point| in_rect(q, bx0, bx1, by0, by1) implies !#[trigger] obstacles.has(q) by {
                    assert(near(q, start_x, start_y, 2) && in_rect(q, 1, x1 as int, 1, y1 as int));
                }
                assert forall|p: Point| in_rect(p, 1, width - 2, 1, height - 2) && !obstacles.has(p) implies #[trigger] linked(
                    obstacles,
                    width,
                    height,
                    s0,
                    p,
                ) by {
                    if in_rect(p, bx0, bx1, by0, by1) {
                        lemma_box_linked(obstacles, width, height, s0, o, p, bx0, bx1, by0, by1);
                    } else {
                        assert(!(near(p, start_x, start_y, 2) && in_rect(p, 1, x1 as int, 1, y1 as int)));
                        assert(!ob1.has(p));
                        assert(linked(ob1, width, height, s0, p));
                        lemma_linked_keep(ob1, obstacles, width, height, s0, p);
                    }
                }
                assert(links_all(obstacles, width, height, s0));
            }
        }
        obstacles
    }
}

/// Fills the interior `[1, w-2] x [1, h-2]` of a board with walls.
fn fill_interior(width: u16, height: u16) -> (r: PointSet)
    ensures
        r.wf(),
        r.w() == width,
        r.h() == height,
        forall|p: Point| #[trigger] r.has(p) == in_rect(p, 1, width - 2, 1, height - 2),
{
    let mut obstacles = PointSet::new(width, height);
    let max_x: u16 = if width >= 2 { width - 2 } else { 0 };
    let max_y: u16 = if height >= 2 { height - 2 } else { 0 };
    let mut y: u16 = 1;
    while y <= max_y
        invariant
            obstacles.wf(),
            obstacles.w() == width,
            obstacles.h() == height,
            max_x == (if width >= 2 { width - 2 } else { 0 }),
            max_y == (if height >= 2 { height - 2 } else { 0 }),
            1 <= y <= max_y + 1,
            forall|p: Point| #[trigger] obstacles.has(p) == (in_rect(p, 1, max_x as int, 1, max_y as int) && p.y < y),
        decreases max_y + 1 - y,
    {
        let mut x: u16 = 1;
        while x <= max_x
            invariant
                obstacles.wf(),
                obstacles.w() == width,
                obstacles.h() == height,
                max_x == (if width >= 2 { width - 2 } else { 0 }),
                max_y == (if height >= 2 { height - 2 } else { 0 }),
                1 <= y <= max_y,
                1 <= x <= max_x + 1,
                forall|p: Point| #[trigger] obstacles.has(p) == (in_rect(p, 1, max_x as int, 1, max_y as int) && (p.y < y || (p.y == y && p.x < x))),
            decreases max_x + 1 - x,
        {
            obstacles.insert(Point { x, y });
            x = x + 1;
        }
        y = y + 1;
    }
    obstacles
}

/// `v` lies between `a` and `b`, both included.
pub open spec fn between(a: int, b: int, v: int) -> bool {
    (a <= v <= b) || (b <= v <= a)
}

/// The centre cell of room `(x, y, w, h)`.
pub open spec fn room_center(r: (u16, u16, u16, u16)) -> (int, int) {
    (r.0 + r.2 / 2, r.1 + r.3 / 2)
}

/// `p` lies in room `(x, y, w, h)`: `[x, x + w) x [y, y + h)`.
pub open spec fn in_room(p: Point, r: (u16, u16, u16, u16)) -> bool {
    r.0 <= p.x < r.0 + r.2 && r.1 <= p.y < r.1 + r.3
}

/// Two rooms share a cell.
pub open spec fn rooms_overlap(a: (u16, u16, u16, u16), b: (u16, u16, u16, u16)) -> bool {
    a.0 < b.0 + b.2 && a.0 + a.2 > b.0 && a.1 < b.1 + b.3 && a.1 + a.3 > b.1
}

/// `p` lies on the corridor from the centre of room `a` to that of room `b`:
/// along the row of `a`'s centre to the column of `b`'s, then along that
/// column to `b`'s centre.
pub open spec fn on_corridor(p: Point, a: (u16, u16, u16, u16), b: (u16, u16, u16, u16)) -> bool {
    let ca = room_center(a);
    let cb = room_center(b);
    (p.y == ca.1 && between(ca.0, cb.0, p.x as int)) || (p.x == cb.0 && between(ca.1, cb.1, p.y as int))
}

/// Every cell of every room of `rooms`, and of every corridor between
/// consecutive rooms, is open in `r`.
pub open spec fn dungeon_carved(r: PointSet, rooms: Seq<(u16, u16, u16, u16)>) -> bool {
    &&& forall|k: int, p: Point| 0 <= k < rooms.len() && #[trigger] in_room(p, rooms[k]) ==> !r.has(p)
    &&& forall|k: int, p: Point| 0 <= k < rooms.len() - 1 && #[trigger] on_corridor(p, rooms[k], rooms[k + 1]) ==> !r.has(p)
}

/// Between one and six rooms of three to seven cells a side, no two sharing
/// a cell.
pub open spec fn dungeon_rooms(rooms: Seq<(u16, u16, u16, u16)>) -> bool {
    &&& 1 <= rooms.len() <= 6
    &&& forall|k: int| 0 <= k < rooms.len() ==> 3 <= (#[trigger] rooms[k]).2 <= 7 && 3 <= rooms[k].3 <= 7
    &&& forall|j: int, k: int| 0 <= j < k < rooms.len() ==> !rooms_overlap(#[trigger] rooms[j], #[trigger] rooms[k])
}

impl Game {
    /// A dungeon: the interior filled with walls, three to six rooms carved out
    /// (the first around the centre, the others at random where they do not
    /// overlap a room already placed), consecutive rooms joined by corridors, and
    /// the cells within two of the centre cleared: every cell of every room and
    /// corridor is open (see `dungeon_carved`). On a board at least eight
    /// by eight, rooms and corridors start from the third column and row, so
    /// the first interior column and row (see `first_line`) stay walls.
    pub fn generate_dungeon_obstacles(width: u16, height: u16, rng: &mut StdRng) -> (r: PointSet)
        ensures
            r.wf(),
            r.w() == width,
            r.h() == height,
            forall|p: Point| #[trigger] r.has(p) ==> in_rect(p, 1, width - 2, 1, height - 2),
            forall|p: Point| near(p, width / 2, height / 2, 2) && in_rect(p, 1, width - 2, 1, height - 2) ==> !#[trigger] r.has(p),
            width >= 8 && height >= 8 ==> forall|p: Point| first_line(p, width, height) ==> #[trigger] r.has(p),
            exists|rooms: Seq<(u16, u16, u16, u16)>| dungeon_rooms(rooms) && dungeon_carved(r, rooms),
    {
        let ghost big = width >= 8 && height >= 8;
        let mut obstacles = fill_interior(width, height);
        let mut rooms: Vec<(u16, u16, u16, u16)> = Vec::new();
        let num_rooms = gen_range_u16(rng, 3, 7);
        let start_x = width / 2;
        let start_y = height / 2;
        let center_room_w = gen_range_u16(rng, 3, 6);
        let center_room_h = gen_range_u16(rng, 3, 6);
        let cxr = if start_x >= center_room_w / 2 { start_x - center_room_w / 2 } else { 0 };
        let cyr = if start_y >= center_room_h / 2 { start_y - center_room_h / 2 } else { 0 };
        let center_room_x = if cxr > 1 { cxr } else { 1 };
        let center_room_y = if cyr > 1 { cyr } else { 1 };
        rooms.push((center_room_x, center_room_y, center_room_w, center_room_h));
        let mut n: u16 = 1;
        while n < num_rooms
            invariant
                num_rooms <= 6,
                1 <= n <= num_rooms,
                rooms@.len() >= 1,
                forall|i: int| 0 <= i < rooms@.len() ==> room_fits(#[trigger] rooms@[i]),
                big == (width >= 8 && height >= 8),
                big ==> forall|i: int| 0 <= i < rooms@.len() ==> (#[trigger] rooms@[i]).0 >= 2 && rooms@[i].1 >= 2,
                rooms@.len() <= n,
                dungeon_rooms(rooms@),
            decreases num_rooms - n,
        {
            let w = gen_range_u16(rng, 3, 8);
            let h = gen_range_u16(rng, 3, 8);
            let hx0 = if width >= w + 1 { width - (w + 1) } else { 0 };
            let hy0 = if height >= h + 1 { height - (h + 1) } else { 0 };
            let hx = if hx0 > 3 { hx0 } else { 3 };
            let hy = if hy0 > 3 { hy0 } else { 3 };
            let x = gen_range_u16(rng, 2, hx);
            let y = gen_range_u16(rng, 2, hy);
            let mut overlap = false;
            let mut j: usize = 0;
            while j < rooms.len()
                invariant
                    forall|i: int| 0 <= i < rooms@.len() ==> room_fits(#[trigger] rooms@[i]),
                    j <= rooms@.len(),
                    x + w <= u16::MAX,
                    y + h <= u16::MAX,
                    w <= 7,
                    h <= 7,
                    !overlap ==> forall|i: int| 0 <= i < j ==> !rooms_overlap(#[trigger] rooms@[i], (x, y, w, h)),
                ensures
                    !overlap ==> forall|i: int| 0 <= i < rooms@.len() ==> !rooms_overlap(#[trigger] rooms@[i], (x, y, w, h)),
                decreases rooms@.len() - j,
            {
                let (rx, ry, rw, rh) = rooms[j];
                if x < rx + rw && x + w > rx && y < ry + rh && y + h > ry {
                    overlap = true;
                    break;
                }
                j = j + 1;
            }
            if !overlap {
                let ghost r0 = rooms@;
                rooms.push((x, y, w, h));
                proof {
                    assert forall|a: int, b: int| 0 <= a < b < rooms@.len() implies !rooms_overlap(#[trigger] rooms@[a], #[trigger] rooms@[b]) by {
                        if b < r0.len() {
                            assert(rooms@[a] == r0[a] && rooms@[b] == r0[b]);
                        } else {
                            assert(rooms@[a] == r0[a]);
                        }
                    }
                    assert forall|k: int| 0 <= k < rooms@.len() implies 3 <= (#[trigger] rooms@[k]).2 <= 7 && 3 <= rooms@[k].3 <= 7 by {
                        if k < r0.len() {
                            assert(rooms@[k] == r0[k]);
                        }
                    }
                }
            }
            n = n + 1;
        }
        let mut i: usize = 0;
        while i < rooms.len()
            invariant
                obstacles.wf(),
                obstacles.w() == width,
                obstacles.h() == height,
                forall|p: Point| #[trigger] obstacles.has(p) ==> in_rect(p, 1, width - 2, 1, height - 2),
                forall|k: int| 0 <= k < rooms@.len() ==> room_fits(#[trigger] rooms@[k]),
                i <= rooms@.len(),
                rooms@.len() >= 1,
                big == (width >= 8 && height >= 8),
                big ==> forall|k: int| 0 <= k < rooms@.len() ==> (#[trigger] rooms@[k]).0 >= 2 && rooms@[k].1 >= 2,
                big ==> forall|p: Point| first_line(p, width, height) ==> #[trigger] obstacles.has(p),
                forall|k: int, p: Point| 0 <= k < i && #[trigger] in_room(p, rooms@[k]) ==> !obstacles.has(p),
            decreases rooms@.len() - i,
        {
            let (rx, ry, rw, rh) = rooms[i];
            let ghost done = i as int;
            let mut yy = ry;
            while yy < ry + rh
                invariant
                    obstacles.wf(),
                    obstacles.w() == width,
                    obstacles.h() == height,
                    forall|p: Point| #[trigger] obstacles.has(p) ==> in_rect(p, 1, width - 2, 1, height - 2),
                    room_fits((rx, ry, rw, rh)),
                    ry <= yy <= ry + rh,
                    big ==> rx >= 2 && ry >= 2,
                    big ==> forall|p: Point| first_line(p, width, height) ==> #[trigger] obstacles.has(p),
                    forall|k: int, p: Point| 0 <= k < done && #[trigger] in_room(p, rooms@[k]) ==> !obstacles.has(p),
                    forall|p: Point| rx <= p.x < rx + rw && ry <= p.y < yy ==> !#[trigger] obstacles.has(p),
                decreases ry + rh - yy,
            {
                let mut xx = rx;
                while xx < rx + rw
                    invariant
                        obstacles.wf(),
                        obstacles.w() == width,
                        obstacles.h() == height,
                        forall|p: Point| #[trigger] obstacles.has(p) ==> in_rect(p, 1, width - 2, 1, height - 2),
                        room_fits((rx, ry, rw, rh)),
                        rx <= xx <= rx + rw,
                        ry <= yy,
                        big ==> rx >= 2 && ry >= 2,
                        big ==> forall|p: Point| first_line(p, width, height) ==> #[trigger] obstacles.has(p),
                        forall|k: int, p: Point| 0 <= k < done && #[trigger] in_room(p, rooms@[k]) ==> !obstacles.has(p),
                        forall|p: Point| rx <= p.x < rx + rw && ry <= p.y < yy ==> !#[trigger] obstacles.has(p),
                        forall|p: Point| rx <= p.x < xx && p.y == yy ==> !#[trigger] obstacles.has(p),
                    decreases rx + rw - xx,
                {
                    obstacles.remove(Point { x: xx, y: yy });
                    xx = xx + 1;
                }
                yy = yy + 1;
            }
            proof {
                assert forall|k: int, p: Point| 0 <= k < i + 1 && #[trigger] in_room(p, rooms@[k]) implies !obstacles.has(p) by {
                    if k == i {
                        assert(rooms@[k] == (rx, ry, rw, rh));
                    }
                }
            }
            i = i + 1;
        }
        let last = rooms.len() - 1;
        let mut i: usize = 0;
        while i < last
            invariant
                last + 1 == rooms@.len(),
                obstacles.wf(),
                obstacles.w() == width,
                obstacles.h() == height,
                forall|p: Point| #[trigger] obstacles.has(p) ==> in_rect(p, 1, width - 2, 1, height - 2),
                forall|k: int| 0 <= k < rooms@.len() ==> room_fits(#[trigger] rooms@[k]),
                big ==> forall|k: int| 0 <= k < rooms@.len() ==> (#[trigger] rooms@[k]).0 >= 2 && rooms@[k].1 >= 2,
                big ==> forall|p: Point| first_line(p, width, height) ==> #[trigger] obstacles.has(p),
                dungeon_rooms(rooms@),
                forall|k: int, p: Point| 0 <= k < rooms@.len() && #[trigger] in_room(p, rooms@[k]) ==> !obstacles.has(p),
                forall|k: int, p: Point| 0 <= k < i && #[trigger] on_corridor(p, rooms@[k], rooms@[k + 1]) ==> !obstacles.has(p),
            decreases rooms@.len() - i,
        {
            let ghost done = i as int;
            let (r1_x, r1_y, r1_w, r1_h) = rooms[i];
            let (r2_x, r2_y, r2_w, r2_h) = rooms[i + 1];
            let c1_x = r1_x + r1_w / 2;
            let c1_y = r1_y + r1_h / 2;
            let c2_x = r2_x + r2_w / 2;
            let c2_y = r2_y + r2_h / 2;
            let mut x = c1_x;
            let mut y = c1_y;
            while x != c2_x
                invariant
                    obstacles.wf(),
                    obstacles.w() == width,
                    obstacles.h() == height,
                    forall|p: Point| #[trigger] obstacles.has(p) ==> in_rect(p, 1, width - 2, 1, height - 2),
                    (x <= c2_x && c1_x <= c2_x && c1_x <= x) || (c2_x <= x && c2_x <= c1_x && x <= c1_x),
                    y == c1_y,
                    big ==> c1_x >= 2 && c2_x >= 2 && c1_y >= 2 && c2_y >= 2,
                    big ==> forall|p: Point| first_line(p, width, height) ==> #[trigger] obstacles.has(p),
                    forall|k: int, p: Point| 0 <= k < rooms@.len() && #[trigger] in_room(p, rooms@[k]) ==> !obstacles.has(p),
                    forall|k: int, p: Point| 0 <= k < done && #[trigger] on_corridor(p, rooms@[k], rooms@[k + 1]) ==> !obstacles.has(p),
                    forall|p: Point| p.y == c1_y && between(c1_x as int, x as int, p.x as int) && p.x != x ==> !#[trigger] obstacles.has(p),
                decreases if x <= c2_x { c2_x - x } else { x - c2_x },
            {
                obstacles.remove(Point { x, y });
                if x < c2_x {
                    x = x + 1;
                } else {
                    x = x - 1;
                }
            }
            while y != c2_y
                invariant
                    obstacles.wf(),
                    obstacles.w() == width,
                    obstacles.h() == height,
                    forall|p: Point| #[trigger] obstacles.has(p) ==> in_rect(p, 1, width - 2, 1, height - 2),
                    (y <= c2_y && c1_y <= c2_y && c1_y <= y) || (c2_y <= y && c2_y <= c1_y && y <= c1_y),
                    x == c2_x,
                    big ==> c1_x >= 2 && c2_x >= 2 && c1_y >= 2 && c2_y >= 2,
                    big ==> forall|p: Point| first_line(p, width, height) ==> #[trigger] obstacles.has(p),
                    forall|k: int, p: Point| 0 <= k < rooms@.len() && #[trigger] in_room(p, rooms@[k]) ==> !obstacles.has(p),
                    forall|k: int, p: Point| 0 <= k < done && #[trigger] on_corridor(p, rooms@[k], rooms@[k + 1]) ==> !obstacles.has(p),
                    forall|p: Point| p.y == c1_y && between(c1_x as int, c2_x as int, p.x as int) && p.x != c2_x ==> !#[trigger] obstacles.has(p),
                    forall|p: Point| p.x == c2_x && between(c1_y as int, y as int, p.y as int) && p.y != y ==> !#[trigger] obstacles.has(p),
                decreases if y <= c2_y { c2_y - y } else { y - c2_y },
            {
                obstacles.remove(Point { x, y });
                if y < c2_y {
                    y = y + 1;
                } else {
                    y = y - 1;
                }
            }
            proof {
                let a = rooms@[done];
                let b = rooms@[done + 1];
                assert(a == (r1_x, r1_y, r1_w, r1_h) && b == (r2_x, r2_y, r2_w, r2_h));
                assert(room_center(a) == (c1_x as int, c1_y as int));
                assert(room_center(b) == (c2_x as int, c2_y as int));
                assert(!obstacles.has(Point { x: c2_x, y: c2_y })) by {
                    assert(in_room(Point { x: c2_x, y: c2_y }, rooms@[done + 1]));
                }
                assert forall|k: int, p: Point| 0 <= k < done + 1 && #[trigger] on_corridor(p, rooms@[k], rooms@[k + 1]) implies !obstacles.has(p) by {
                    if k == done {
                        if p.x == c2_x && p.y == c2_y {
                            assert(p == Point { x: c2_x, y: c2_y });
                        } else if p.y == c1_y && between(c1_x as int, c2_x as int, p.x as int) && p.x != c2_x {
                        } else if p.x == c2_x && p.y == c1_y {
                            assert(between(c1_y as int, c2_y as int, p.y as int));
                        } else {
                        }
                    }
                }
            }
            i = i + 1;
        }
        proof {
            assert(dungeon_carved(obstacles, rooms@));
        }
        let ghost ob1 = obstacles;
        let x1: u16 = if width >= 2 { width - 2 } else { 0 };
        let y1: u16 = if height >= 2 { height - 2 } else { 0 };
        clear_around(&mut obstacles, start_x, start_y, 2, 1, x1, 1, y1);
        proof {
            assert forall|k: int, p: Point| 0 <= k < rooms@.len() && #[trigger] in_room(p, rooms@[k]) implies !obstacles.has(p) by {
                assert(!ob1.has(p));
            }
            assert forall|k: int, p: Point| 0 <= k < rooms@.len() - 1 && #[trigger] on_corridor(p, rooms@[k], rooms@[k + 1]) implies !obstacles.has(p) by {
                assert(!ob1.has(p));
            }
            assert(dungeon_carved(obstacles, rooms@));
        }
        obstacles
    }
}

/// A room `(x, y, w, h)` whose far edges stay within `u16` and that is at most 7 by 7.
pub open spec fn room_fits(r: (u16, u16, u16, u16)) -> bool {
    r.0 + r.2 <= u16::MAX && r.1 + r.3 <= u16::MAX && r.2 <= 7 && r.3 <= 7
}

/// Every border flag of the `w` by `h` grid `g` is set.
pub open spec fn border_set(g: Seq<Vec<bool>>, w: u16, h: u16) -> bool {
    forall|i: int, j: int| 0 <= i < w && 0 <= j < h && (i == 0 || j == 0 || i == w - 1 || j == h - 1) ==> #[trigger] g[j]@[i]
}

/// The grid has `h` rows of `w` flags.
pub open spec fn grid_dims(g: Seq<Vec<bool>>, w: u16, h: u16) -> bool {
    g.len() == h && forall|y: int| 0 <= y < h ==> (#[trigger] g[y])@.len() == w
}

/// `1` when the flag at `(x, y)` is set.
pub open spec fn cell(g: Seq<Vec<bool>>, x: int, y: int) -> int {
    if g[y]@[x] { 1 } else { 0 }
}

/// The number of set flags among the eight neighbours of `(x, y)`.
pub open spec fn wall_neighbours(g: Seq<Vec<bool>>, x: int, y: int) -> int {
    cell(g, x - 1, y - 1) + cell(g, x, y - 1) + cell(g, x + 1, y - 1) + cell(g, x - 1, y) + cell(g, x + 1, y)
        + cell(g, x - 1, y + 1) + cell(g, x, y + 1) + cell(g, x + 1, y + 1)
}

/// The number of walls around an interior cell of the grid.
fn count_wall_neighbours(grid: &Vec<Vec<bool>>, x: usize, y: usize, w: u16, h: u16) -> (r: u32)
    requires
        grid_dims(grid@, w, h),
        1 <= x < w - 1,
        1 <= y < h - 1,
    ensures
        r == wall_neighbours(grid@, x as int, y as int),
{
    let mut n: u32 = 0;
    if grid[y - 1][x - 1] { n = n + 1; }
    if grid[y - 1][x] { n = n + 1; }
    if grid[y - 1][x + 1] { n = n + 1; }
    if grid[y][x - 1] { n = n + 1; }
    if grid[y][x + 1] { n = n + 1; }
    if grid[y + 1][x - 1] { n = n + 1; }
    if grid[y + 1][x] { n = n + 1; }
    if grid[y + 1][x + 1] { n = n + 1; }
    n
}

/// One round of smoothing: an interior wall stays with four or more walls
/// around it, an interior open cell turns into a wall with five or more; the
/// border is kept.
pub open spec fn smoothed_cell(g: Seq<Vec<bool>>, x: int, y: int, w: u16, h: u16) -> bool {
    if 1 <= x < w - 1 && 1 <= y < h - 1 {
        if g[y]@[x] { wall_neighbours(g, x, y) >= 4 } else { wall_neighbours(g, x, y) >= 5 }
    } else {
        g[y]@[x]
    }
}

/// `next` is `g` after one round of smoothing.
pub open spec fn is_smoothing(g: Seq<Vec<bool>>, next: Seq<Vec<bool>>, w: u16, h: u16) -> bool {
    &&& grid_dims(g, w, h)
    &&& grid_dims(next, w, h)
    &&& forall|x: int, y: int| 0 <= x < w && 0 <= y < h ==> #[trigger] next[y]@[x] == smoothed_cell(g, x, y, w, h)
}

fn copy_grid(grid: &Vec<Vec<bool>>, w: u16, h: u16) -> (r: Vec<Vec<bool>>)
    requires
        grid_dims(grid@, w, h),
    ensures
        grid_dims(r@, w, h),
        forall|i: int, j: int| 0 <= i < w && 0 <= j < h ==> #[trigger] r@[j]@[i] == grid@[j]@[i],
{
    let mut out: Vec<Vec<bool>> = Vec::new();
    let mut j: usize = 0;
    while j < grid.len()
        invariant
            grid_dims(grid@, w, h),
            j <= h,
            out@.len() == j,
            forall|k: int| 0 <= k < j ==> (#[trigger] out@[k])@.len() == w,
            forall|i: int, k: int| 0 <= i < w && 0 <= k < j ==> #[trigger] out@[k]@[i] == grid@[k]@[i],
        decreases h - j,
    {
        let mut row: Vec<bool> = Vec::new();
        let mut i: usize = 0;
        while i < grid[j].len()
            invariant
                grid_dims(grid@, w, h),
                j < h,
                i <= w,
                row@.len() == i,
                forall|k: int| 0 <= k < i ==> row@[k] == grid@[j as int]@[k],
            decreases w - i,
        {
            row.push(grid[j][i]);
            i = i + 1;
        }
        out.push(row);
        j = j + 1;
    }
    out
}

fn replace_flag(grid: &mut Vec<Vec<bool>>, x: usize, y: usize, v: bool, w: u16, h: u16)
    requires
        grid_dims(old(grid)@, w, h),
        x < w,
        y < h,
    ensures
        grid_dims(final(grid)@, w, h),
        forall|i: int, j: int| 0 <= i < w && 0 <= j < h ==> #[trigger] final(grid)@[j]@[i] == (if i == x && j == y { v } else { old(grid)@[j]@[i] }),
{
    let mut row = grid[y].clone();
    assert(row@ =~= old(grid)@[y as int]@);
    row.set(x, v);
    grid.set(y, row);
}

/// `gs` is a grid with its border walled followed by `n` rounds of
/// smoothing, each grid the smoothing of the one before.
pub open spec fn cave_rounds(gs: Seq<Seq<Vec<bool>>>, w: u16, h: u16, n: int) -> bool {
    &&& gs.len() == n + 1
    &&& grid_dims(gs[0], w, h)
    &&& border_set(gs[0], w, h)
    &&& forall|i: int| 0 <= i < n ==> #[trigger] is_smoothing(gs[i], gs[i + 1], w, h)
}

/// The interior walls of `r` are those of grid `g`, less the cells within
/// three of the centre.
pub open spec fn cave_cells(g: Seq<Vec<bool>>, r: PointSet, w: u16, h: u16) -> bool {
    forall|p: Point| in_rect(p, 1, w - 2, 1, h - 2) ==> (#[trigger] r.has(p) == (g[p.y as int]@[p.x as int] && !near(p, w / 2, h / 2, 3)))
}

impl Game {
    /// A cave: walls on the border, each interior cell a wall with probability
    /// 45 in 100, four rounds of smoothing (see `is_smoothing`), the cells within
    /// three of the centre opened, and the interior walls returned. The
    /// corner cell `(1, 1)` has five border walls around it, so smoothing
    /// always leaves a wall there; on a board of ten by ten or more it is
    /// far enough from the centre to stay. The walls are exactly those of the
    /// grid after four rounds (see `cave_rounds`), less the centre (see
    /// `cave_cells`).
    pub fn generate_cave_obstacles(width: u16, height: u16, rng: &mut StdRng) -> (r: PointSet)
        requires
            width >= 1,
            height >= 1,
        ensures
            r.wf(),
            r.w() == width,
            r.h() == height,
            forall|p: Point| #[trigger] r.has(p) ==> in_rect(p, 1, width - 2, 1, height - 2),
            forall|p: Point| near(p, width / 2, height / 2, 3) && in_rect(p, 1, width - 2, 1, height - 2) ==> !#[trigger] r.has(p),
            width >= 10 && height >= 10 ==> r.has(Point { x: 1, y: 1 }),
            exists|gs: Seq<Seq<Vec<bool>>>| cave_rounds(gs, width, height, 4) && cave_cells(gs[4], r, width, height),
    {
        let mut grid: Vec<Vec<bool>> = Vec::new();
        let mut y: u16 = 0;
        while y < height
            invariant
                height >= 1,
                width >= 1,
                grid@.len() == y,
                y <= height,
                forall|j: int| 0 <= j < y ==> (#[trigger] grid@[j])@.len() == width,
                forall|i: int, j: int| 0 <= i < width && 0 <= j < y && (i == 0 || j == 0 || i == width - 1 || j == height - 1)
                    ==> #[trigger] grid@[j]@[i],
            decreases height - y,
        {
            let mut row: Vec<bool> = Vec::new();
            let mut x: u16 = 0;
            while x < width
                invariant
                    height >= 1,
                    width >= 1,
                    y < height,
                    row@.len() == x,
                    x <= width,
                    forall|i: int| 0 <= i < x && (i == 0 || y == 0 || i == width - 1 || y == height - 1) ==> #[trigger] row@[i],
                decreases width - x,
            {
                if x == 0 || y == 0 || x == width - 1 || y == height - 1 {
                    row.push(true);
                } else {
                    let wall = gen_ratio(rng, 45, 100);
                    row.push(wall);
                }
                x = x + 1;
            }
            let ghost g0 = grid@;
            grid.push(row);
            proof {
                assert forall|i: int, j: int| 0 <= i < width && 0 <= j < y + 1 && (i == 0 || j == 0 || i == width - 1 || j == height - 1)
                    implies #[trigger] grid@[j]@[i] by {
                    if j < y {
                        assert(grid@[j] == g0[j]);
                    }
                }
            }
            y = y + 1;
        }
        let ghost mut gs: Seq<Seq<Vec<bool>>> = seq![grid@];
        let mut it: u32 = 0;
        while it < 4
            invariant
                grid_dims(grid@, width, height),
                width >= 1,
                height >= 1,
                it <= 4,
                border_set(grid@, width, height),
                it > 0 && width >= 3 && height >= 3 ==> grid@[1]@[1],
                cave_rounds(gs, width, height, it as int),
                gs[it as int] == grid@,
            decreases 4 - it,
        {
            let mut next_grid = copy_grid(&grid, width, height);
            assert(border_set(next_grid@, width, height));
            let mut yy: usize = 1;
            while yy < (height - 1) as usize
                invariant
                    width >= 1,
                    height >= 1,
                    grid_dims(grid@, width, height),
                    grid_dims(next_grid@, width, height),
                    1 <= yy,
                    border_set(grid@, width, height),
                    border_set(next_grid@, width, height),
                    yy > 1 && width >= 3 && height >= 3 ==> next_grid@[1]@[1],
                    forall|x: int, y: int| 0 <= x < width && 0 <= y < height ==> #[trigger] next_grid@[y]@[x] == (if 1 <= y < yy
                        && 1 <= x < width - 1 {
                        smoothed_cell(grid@, x, y, width, height)
                    } else {
                        grid@[y]@[x]
                    }),
                decreases height - yy,
            {
                let mut xx: usize = 1;
                while xx < (width - 1) as usize
                    invariant
                        width >= 1,
                        height >= 1,
                        grid_dims(grid@, width, height),
                        grid_dims(next_grid@, width, height),
                        1 <= yy < height - 1,
                        1 <= xx,
                        border_set(grid@, width, height),
                        border_set(next_grid@, width, height),
                        (yy > 1 || xx > 1) && width >= 3 && height >= 3 ==> next_grid@[1]@[1],
                        forall|x: int, y: int| 0 <= x < width && 0 <= y < height ==> #[trigger] next_grid@[y]@[x] == (if (1 <= y < yy
                            && 1 <= x < width - 1) || (y == yy && 1 <= x < xx) {
                            smoothed_cell(grid@, x, y, width, height)
                        } else {
                            grid@[y]@[x]
                        }),
                    decreases width - xx,
                {
                    let n = count_wall_neighbours(&grid, xx, yy, width, height);
                    let v = if grid[yy][xx] { n >= 4 } else { n >= 5 };
                    proof {
                        if xx == 1 && yy == 1 {
                            assert(grid@[0]@[0] && grid@[0]@[1] && grid@[0]@[2] && grid@[1]@[0] && grid@[2]@[0]);
                            assert(n >= 5);
                        }
                    }
                    replace_flag(&mut next_grid, xx, yy, v, width, height);
                    xx = xx + 1;
                }
                yy = yy + 1;
            }
            proof {
                assert(is_smoothing(grid@, next_grid@, width, height));
                let gs0 = gs;
                gs = gs.push(next_grid@);
                assert forall|i: int| 0 <= i < it + 1 implies #[trigger] is_smoothing(gs[i], gs[i + 1], width, height) by {
                    if i < it {
                        assert(gs[i] == gs0[i] && gs[i + 1] == gs0[i + 1]);
                        assert(is_smoothing(gs0[i], gs0[i + 1], width, height));
                    }
                }
            }
            grid = next_grid;
            it = it + 1;
        }
        let mut obstacles = PointSet::new(width, height);
        let mut yy: u16 = 1;
        while yy < height - 1
            invariant
                width >= 1,
                height >= 1,
                grid_dims(grid@, width, height),
                obstacles.wf(),
                obstacles.w() == width,
                obstacles.h() == height,
                1 <= yy,
                forall|p: Point| #[trigger] obstacles.has(p) ==> in_rect(p, 1, width - 2, 1, height - 2),
                width >= 3 && height >= 3 ==> grid@[1]@[1],
                yy > 1 && width >= 3 && height >= 3 ==> obstacles.has(Point { x: 1, y: 1 }),
                forall|p: Point| in_rect(p, 1, width - 2, 1, height - 2) ==> (#[trigger] obstacles.has(p) == (grid@[p.y as int]@[p.x as int]
                    && p.y < yy)),
            decreases height - yy,
        {
            let mut xx: u16 = 1;
            while xx < width - 1
                invariant
                    width >= 1,
                    height >= 1,
                    grid_dims(grid@, width, height),
                    obstacles.wf(),
                    obstacles.w() == width,
                    obstacles.h() == height,
                    1 <= yy < height - 1,
                    1 <= xx,
                    forall|p: Point| #[trigger] obstacles.has(p) ==> in_rect(p, 1, width - 2, 1, height - 2),
                    width >= 3 && height >= 3 ==> grid@[1]@[1],
                    (yy > 1 || xx > 1) && width >= 3 && height >= 3 ==> obstacles.has(Point { x: 1, y: 1 }),
                    forall|p: Point| in_rect(p, 1, width - 2, 1, height - 2) ==> (#[trigger] obstacles.has(p) == (grid@[p.y as int]@[p.x as int]
                        && (p.y < yy || (p.y == yy && p.x < xx)))),
                decreases width - xx,
            {
                if grid[yy as usize][xx as usize] {
                    obstacles.insert(Point { x: xx, y: yy });
                }
                xx = xx + 1;
            }
            yy = yy + 1;
        }
        let x1: u16 = if width >= 2 { width - 2 } else { 0 };
        let y1: u16 = if height >= 2 { height - 2 } else { 0 };
        let ghost ob1 = obstacles;
        clear_around(&mut obstacles, width / 2, height / 2, 3, 1, x1, 1, y1);
        proof {
            assert forall|p: Point| in_rect(p, 1, width - 2, 1, height - 2) implies (#[trigger] obstacles.has(p) == (gs[4][p.y as int]@[p.x
                as int] && !near(p, width / 2, height / 2, 3))) by {
                assert(ob1.has(p) == grid@[p.y as int]@[p.x as int]);
            }
            assert(cave_cells(gs[4], obstacles, width, height));
        }
        obstacles
    }
}

} // verus!
