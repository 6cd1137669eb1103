use crate::snake::{Point, Snake};
use vstd::prelude::*;

verus! {

broadcast use vstd::std_specs::vecdeque::group_vec_dequeue_axioms;

/// The probe index after `k` probes of the deterministic food search: it starts
/// at 0 and each probe moves it 13 cells forward, modulo the board area `n`.
pub open spec fn probe(k: nat, n: nat) -> nat
    decreases k,
{
    if k == 0 {
        0
    } else {
        ((probe((k - 1) as nat, n) + 13) % n) as nat
    }
}

/// `v` pushed into `[1, hi]` the way `v.max(1).min(hi)` does.
pub open spec fn clamp_inner(v: int, hi: int) -> int {
    let a = if v < 1 { 1 } else { v };
    if a <= hi { a } else { hi }
}

/// The cell that probe index `i` names on a `w`-wide board, pushed off the walls.
pub open spec fn probe_cell(i: nat, w: u16, h: u16) -> Point {
    Point {
        x: clamp_inner((i % (w as nat)) as int, w - 2) as u16,
        y: clamp_inner((i / (w as nat)) as int, h - 2) as u16,
    }
}

/// The cell examined by the `k`-th probe.
pub open spec fn probe_point(k: nat, w: u16, h: u16) -> Point {
    probe_cell(probe(k, (w * h) as nat), w, h)
}

/// `k` is the first probe (counting from 1) whose cell is free.
pub open spec fn is_first_free(k: nat, w: u16, h: u16, free: spec_fn(Point) -> bool) -> bool {
    &&& 1 <= k
    &&& free(probe_point(k, w, h))
    &&& forall|j: nat| 1 <= j < k ==> !free(#[trigger] probe_point(j, w, h))
}

/// Some probe within one full cycle of the board finds a free cell, which is
/// exactly when the search ends (the probes repeat with a period of at most `w * h`).
pub open spec fn search_ends(w: u16, h: u16, free: spec_fn(Point) -> bool) -> bool {
    exists|k: nat| 1 <= k <= w * h && free(#[trigger] probe_point(k, w, h))
}

/// The dimensions the search handles without overflow or an empty board.
pub open spec fn search_dims_ok(w: u16, h: u16) -> bool {
    &&& 2 <= w
    &&& 2 <= h
    &&& w * h + 13 <= u16::MAX + 1
}

/// Free for the plain search: neither the snake nor an obstacle is on `p`.
pub open spec fn free_of(snake: Seq<Point>, obstacles: Seq<Point>) -> spec_fn(Point) -> bool {
    |p: Point| !snake.contains(p) && !obstacles.contains(p)
}

/// The cell index that a grid of `w` columns gives to `p`.
pub open spec fn cell_index(p: Point, w: u16) -> int {
    p.y * w + p.x
}

/// Some point of `s` has cell index `j` on a grid of `w` columns.
pub open spec fn marked(s: Seq<Point>, w: u16, j: int) -> bool {
    exists|i: int| 0 <= i < s.len() && cell_index(#[trigger] s[i], w) == j
}

/// Some point of `s` that lies on the `w` by `h` board has cell index `j`.
pub open spec fn marked_on_board(s: Seq<Point>, w: u16, h: u16, j: int) -> bool {
    exists|i: int| 0 <= i < s.len() && (#[trigger] s[i]).x < w && s[i].y < h && cell_index(s[i], w) == j
}

/// Free for the grid searches that mark every point by its cell index: no
/// point of the snake or of the obstacles has the index of `p`.
pub open spec fn free_by_index(snake: Seq<Point>, obstacles: Seq<Point>, w: u16) -> spec_fn(
    Point,
) -> bool {
    |p: Point| !marked(snake, w, cell_index(p, w)) && !marked(obstacles, w, cell_index(p, w))
}

/// Every point lies on the `w` by `h` board.
pub open spec fn all_on_board(s: Seq<Point>, w: u16, h: u16) -> bool {
    forall|i: int| 0 <= i < s.len() ==> (#[trigger] s[i]).x < w && s[i].y < h
}

/// Every point has a cell index inside the `w * h` grid.
pub open spec fn all_indexed(s: Seq<Point>, w: u16, h: u16) -> bool {
    forall|i: int| 0 <= i < s.len() ==> cell_index(#[trigger] s[i], w) < w * h
}

proof fn lemma_probe_bound(k: nat, n: nat)
    requires
        n > 0,
    ensures
        probe(k, n) < n,
    decreases k,
{
    if k > 0 {
        lemma_probe_bound((k - 1) as nat, n);
    }
}

proof fn lemma_probe_cell_in_grid(i: nat, w: u16, h: u16)
    requires
        search_dims_ok(w, h),
        i < w * h,
    ensures
        probe_cell(i, w, h).x <= w - 2,
        probe_cell(i, w, h).y <= h - 2,
        cell_index(probe_cell(i, w, h), w) < w * h,
        probe_cell(i, w, h).x < w,
        probe_cell(i, w, h).y < h,
{
    let p = probe_cell(i, w, h);
    assert(p.y * w + p.x < w * h) by (nonlinear_arith)
        requires
            p.x <= w - 2,
            p.y <= h - 2,
            w >= 2,
            h >= 2,
    ;
}

/// The cell index tells apart any two points of the board.
proof fn lemma_cell_index_injective(p: Point, q: Point, w: u16)
    requires
        p.x < w,
        q.x < w,
        cell_index(p, w) == cell_index(q, w),
    ensures
        p == q,
{
    if p.y < q.y {
        assert(p.y * w + p.x < q.y * w + q.x) by (nonlinear_arith)
            requires
                p.y < q.y,
                p.x < w,
        ;
    } else if q.y < p.y {
        assert(q.y * w + q.x < p.y * w + p.x) by (nonlinear_arith)
            requires
                q.y < p.y,
                q.x < w,
        ;
    }
}

fn clamp_u16(v: u16, hi: u16) -> (r: u16)
    ensures
        r == clamp_inner(v as int, hi as int),
{
    let a = if v < 1 { 1 } else { v };
    if a <= hi { a } else { hi }
}

fn slice_contains(s: &[Point], p: Point) -> (r: bool)
    ensures
        r == s@.contains(p),
{
    let mut i: usize = 0;
    while i < s.len()
        invariant
            0 <= i <= s@.len(),
            forall|j: int| 0 <= j < i ==> s@[j] != p,
        decreases s.len() - i,
    {
        if s[i] == p {
            return true;
        }
        i = i + 1;
    }
    false
}

/// One probe: advances the probe index and returns it with the cell it names.
fn next_probe(i: u16, w: u16, h: u16, k: Ghost<nat>) -> (r: (u16, Point))
    requires
        search_dims_ok(w, h),
        i == probe(k@, (w * h) as nat),
    ensures
        r.0 == probe(k@ + 1, (w * h) as nat),
        r.1 == probe_point(k@ + 1, w, h),
        r.1 == probe_cell(r.0 as nat, w, h),
        cell_index(r.1, w) < w * h,
        r.1.x < w,
        r.1.y < h,
{
    proof {
        assert(w * h > 0) by (nonlinear_arith)
            requires
                w >= 2,
                h >= 2,
        ;
        lemma_probe_bound(k@, (w * h) as nat);
        lemma_probe_bound(k@ + 1, (w * h) as nat);
    }
    let n = w * h;
    let ni = (i + 13) % n;
    let x = ni % w;
    let y = ni / w;
    let p = Point { x: clamp_u16(x, w - 2), y: clamp_u16(y, h - 2) };
    proof {
        assert(y as int == ni as int / w as int);
        assert(ni < n);
        assert(ni as int / w as int <= h - 1) by (nonlinear_arith)
            requires
                ni < w * h,
                w > 0,
        ;
        lemma_probe_cell_in_grid(ni as nat, w, h);
    }
    (ni, p)
}

/// Searches for a food cell by a deterministic probe sequence, testing each
/// candidate against the snake and the obstacles.
pub fn generate_food_baseline(width: u16, height: u16, snake: &Snake, obstacles: &[Point]) -> (r:
    Point)
    requires
        search_dims_ok(width, height),
        search_ends(width, height, free_of(snake.cells(), obstacles@)),
    ensures
        exists|k: nat|
            is_first_free(k, width, height, free_of(snake.cells(), obstacles@)) && r
                == probe_point(k, width, height),
{
    let ghost free = free_of(snake.cells(), obstacles@);
    let ghost kw: nat = choose|k: nat| 1 <= k <= width * height && free(#[trigger] probe_point(k, width, height));
    let ghost mut s: nat = 0;
    let mut i: u16 = 0;
    loop
        invariant
            search_dims_ok(width, height),
            free == free_of(snake.cells(), obstacles@),
            1 <= kw,
            free(probe_point(kw, width, height)),
            s < kw,
            i == probe(s, (width * height) as nat),
            forall|j: nat| 1 <= j <= s ==> !free(#[trigger] probe_point(j, width, height)),
        decreases kw - s,
    {
        let (ni, p) = next_probe(i, width, height, Ghost(s));
        i = ni;
        proof {
            s = s + 1;
        }
        if !snake.contains(p) && !slice_contains(obstacles, p) {
            assert(is_first_free(s, width, height, free));
            return p;
        }
        assert(!free(probe_point(s, width, height)));
    }
}

/// Reserved for a search over a hash set of occupied cells; it answers the
/// top-left corner.
pub fn generate_food_optimized_hashset(width: u16, height: u16, snake: &Snake, obstacles: &[Point]) -> (r: Point)
    ensures
        r == (Point { x: 0, y: 0 }),
{
    Point { x: 0, y: 0 }
}

/// Marks in a grid of `w * h` flags every cell that holds a point of the
/// snake or of the obstacles; with `only_on_board` the points off the board are skipped.
fn mark_cells(width: u16, height: u16, snake: &Snake, obstacles: &[Point], only_on_board: bool) -> (occupied: Vec<bool>)
    requires
        search_dims_ok(width, height),
        !only_on_board ==> all_indexed(snake.cells(), width, height),
        !only_on_board ==> all_indexed(obstacles@, width, height),
    ensures
        occupied@.len() == width * height,
        !only_on_board ==> forall|j: int| 0 <= j < width * height ==> occupied@[j] == (marked(snake.cells(), width, j) || marked(obstacles@, width, j)),
        only_on_board ==> forall|j: int| 0 <= j < width * height ==> occupied@[j] == (marked_on_board(snake.cells(), width, height, j) || marked_on_board(obstacles@, width, height, j)),
{
    let n: usize = (width as usize) * (height as usize);
    let mut occupied: Vec<bool> = Vec::new();
    let mut k: usize = 0;
    while k < n
        invariant
            n == width * height,
            occupied@.len() == k,
            k <= n,
            forall|j: int| 0 <= j < k ==> !occupied@[j],
        decreases n - k,
    {
        occupied.push(false);
        k = k + 1;
    }
    let ghost sc = snake.cells();
    let ghost ob = obstacles@;
    let blen = snake.body.len();
    let mut i: usize = 0;
    while i < blen
        invariant
            search_dims_ok(width, height),
            sc == snake.cells(),
            blen == sc.len(),
            n == width * height,
            occupied@.len() == n,
            0 <= i <= blen,
            !only_on_board ==> all_indexed(sc, width, height),
            !only_on_board ==> forall|j: int| 0 <= j < n ==> occupied@[j] == marked(sc.take(i as int), width, j),
            only_on_board ==> forall|j: int| 0 <= j < n ==> occupied@[j] == marked_on_board(sc.take(i as int), width, height, j),
        decreases blen - i,
    {
        let p = snake.body[i];
        let on = p.x < width && p.y < height;
        if !only_on_board || on {
            proof {
                if !only_on_board {
                    assert(cell_index(sc[i as int], width) < width * height);
                } else {
                    assert(p.y * width + p.x < width * height) by (nonlinear_arith)
                        requires p.x < width, p.y < height;
                }
            }
            let idx = (p.y as usize) * (width as usize) + (p.x as usize);
            occupied.set(idx, true);
        }
        proof {
            let t = sc.take(i as int);
            let t1 = sc.take(i + 1);
            assert(t1 == t.push(p));
            assert forall|j: int| 0 <= j < n implies (!only_on_board ==> occupied@[j] == marked(t1, width, j)) && (only_on_board ==> occupied@[j] == marked_on_board(t1, width, height, j)) by {
                if marked(t, width, j) {
                    let w = choose|w: int| 0 <= w < t.len() && cell_index(#[trigger] t[w], width) == j;
                    assert(t1[w] == t[w]);
                }
                if marked_on_board(t, width, height, j) {
                    let w = choose|w: int| 0 <= w < t.len() && (#[trigger] t[w]).x < width && t[w].y < height && cell_index(t[w], width) == j;
                    assert(t1[w] == t[w]);
                }
                if marked(t1, width, j) && !marked(t, width, j) {
                    let w = choose|w: int| 0 <= w < t1.len() && cell_index(#[trigger] t1[w], width) == j;
                    if w < t.len() { assert(t1[w] == t[w]); }
                }
                if marked_on_board(t1, width, height, j) && !marked_on_board(t, width, height, j) {
                    let w = choose|w: int| 0 <= w < t1.len() && (#[trigger] t1[w]).x < width && t1[w].y < height && cell_index(t1[w], width) == j;
                    if w < t.len() { assert(t1[w] == t[w]); }
                }
                if cell_index(p, width) == j {
                    assert(t1[i as int] == p);
                }
            }
        }
        i = i + 1;
    }
    assert(sc.take(blen as int) == sc);
    let olen = obstacles.len();
    let mut i: usize = 0;
    while i < olen
        invariant
            search_dims_ok(width, height),
            sc == snake.cells(),
            ob == obstacles@,
            olen == ob.len(),
            n == width * height,
            occupied@.len() == n,
            0 <= i <= olen,
            !only_on_board ==> all_indexed(ob, width, height),
            !only_on_board ==> forall|j: int| 0 <= j < n ==> occupied@[j] == (marked(sc, width, j) || marked(ob.take(i as int), width, j)),
            only_on_board ==> forall|j: int| 0 <= j < n ==> occupied@[j] == (marked_on_board(sc, width, height, j) || marked_on_board(ob.take(i as int), width, height, j)),
        decreases olen - i,
    {
        let p = obstacles[i];
        let on = p.x < width && p.y < height;
        if !only_on_board || on {
            proof {
                if !only_on_board {
                    assert(cell_index(ob[i as int], width) < width * height);
                } else {
                    assert(p.y * width + p.x < width * height) by (nonlinear_arith)
                        requires p.x < width, p.y < height;
                }
            }
            let idx = (p.y as usize) * (width as usize) + (p.x as usize);
            occupied.set(idx, true);
        }
        proof {
            let t = ob.take(i as int);
            let t1 = ob.take(i + 1);
            assert(t1 == t.push(p));
            assert forall|j: int| 0 <= j < n implies (!only_on_board ==> occupied@[j] == (marked(sc, width, j) || marked(t1, width, j))) && (only_on_board ==> occupied@[j] == (marked_on_board(sc, width, height, j) || marked_on_board(t1, width, height, j))) by {
                if marked(t, width, j) {
                    let w = choose|w: int| 0 <= w < t.len() && cell_index(#[trigger] t[w], width) == j;
                    assert(t1[w] == t[w]);
                }
                if marked_on_board(t, width, height, j) {
                    let w = choose|w: int| 0 <= w < t.len() && (#[trigger] t[w]).x < width && t[w].y < height && cell_index(t[w], width) == j;
                    assert(t1[w] == t[w]);
                }
                if marked(t1, width, j) && !marked(t, width, j) {
                    let w = choose|w: int| 0 <= w < t1.len() && cell_index(#[trigger] t1[w], width) == j;
                    if w < t.len() { assert(t1[w] == t[w]); }
                }
                if marked_on_board(t1, width, height, j) && !marked_on_board(t, width, height, j) {
                    let w = choose|w: int| 0 <= w < t1.len() && (#[trigger] t1[w]).x < width && t1[w].y < height && cell_index(t1[w], width) == j;
                    if w < t.len() { assert(t1[w] == t[w]); }
                }
                if cell_index(p, width) == j {
                    assert(t1[i as int] == p);
                }
            }
        }
        i = i + 1;
    }
    assert(ob.take(olen as int) == ob);
    occupied
}

/// For a point on the board, a point of `s` on the board shares its cell index
/// exactly when `s` holds the point itself.
proof fn lemma_marked_on_board_iff_contains(s: Seq<Point>, p: Point, w: u16, h: u16)
    requires
        p.x < w,
        p.y < h,
    ensures
        marked_on_board(s, w, h, cell_index(p, w)) == s.contains(p),
{
    if marked_on_board(s, w, h, cell_index(p, w)) {
        let i = choose|i: int| 0 <= i < s.len() && (#[trigger] s[i]).x < w && s[i].y < h && cell_index(s[i], w) == cell_index(p, w);
        lemma_cell_index_injective(s[i], p, w);
    }
    if s.contains(p) {
        let i = choose|i: int| 0 <= i < s.len() && s[i] == p;
        assert(s[i].x < w && s[i].y < h && cell_index(s[i], w) == cell_index(p, w));
    }
}

/// The search of `generate_food_baseline` over a grid of flags marked once
/// with every point of the snake and of the obstacles; every such point must
/// have a cell index inside the grid.
pub fn generate_food_vec_of_bools(width: u16, height: u16, snake: &Snake, obstacles: &[Point]) -> (r: Point)
    requires
        search_dims_ok(width, height),
        all_indexed(snake.cells(), width, height),
        all_indexed(obstacles@, width, height),
        search_ends(width, height, free_by_index(snake.cells(), obstacles@, width)),
    ensures
        exists|k: nat|
            is_first_free(k, width, height, free_by_index(snake.cells(), obstacles@, width)) && r
                == probe_point(k, width, height),
{
    let occupied = mark_cells(width, height, snake, obstacles, false);
    let ghost free = free_by_index(snake.cells(), obstacles@, width);
    let ghost kw: nat = choose|k: nat| 1 <= k <= width * height && free(#[trigger] probe_point(k, width, height));
    let ghost mut s: nat = 0;
    let mut i: u16 = 0;
    loop
        invariant
            search_dims_ok(width, height),
            free == free_by_index(snake.cells(), obstacles@, width),
            occupied@.len() == width * height,
            forall|j: int| 0 <= j < width * height ==> occupied@[j] == (marked(snake.cells(), width, j) || marked(obstacles@, width, j)),
            1 <= kw,
            free(probe_point(kw, width, height)),
            s < kw,
            i == probe(s, (width * height) as nat),
            forall|j: nat| 1 <= j <= s ==> !free(#[trigger] probe_point(j, width, height)),
        decreases kw - s,
    {
        let (ni, p) = next_probe(i, width, height, Ghost(s));
        i = ni;
        proof {
            s = s + 1;
        }
        let idx = (p.y as usize) * (width as usize) + (p.x as usize);
        if !occupied[idx] {
            assert(is_first_free(s, width, height, free));
            return p;
        }
        assert(!free(probe_point(s, width, height)));
    }
}

/// The grid search that skips the points lying off the board; it finds the
/// same cell as `generate_food_baseline`.
pub fn generate_food_optimized(width: u16, height: u16, snake: &Snake, obstacles: &[Point]) -> (r: Point)
    requires
        search_dims_ok(width, height),
        search_ends(width, height, free_of(snake.cells(), obstacles@)),
    ensures
        exists|k: nat|
            is_first_free(k, width, height, free_of(snake.cells(), obstacles@)) && r
                == probe_point(k, width, height),
{
    grid_search_on_board(width, height, snake, obstacles)
}

/// The same search as `generate_food_optimized`.
pub fn generate_food_vec_bool(width: u16, height: u16, snake: &Snake, obstacles: &[Point]) -> (r: Point)
    requires
        search_dims_ok(width, height),
        search_ends(width, height, free_of(snake.cells(), obstacles@)),
    ensures
        exists|k: nat|
            is_first_free(k, width, height, free_of(snake.cells(), obstacles@)) && r
                == probe_point(k, width, height),
{
    grid_search_on_board(width, height, snake, obstacles)
}

fn grid_search_on_board(width: u16, height: u16, snake: &Snake, obstacles: &[Point]) -> (r: Point)
    requires
        search_dims_ok(width, height),
        search_ends(width, height, free_of(snake.cells(), obstacles@)),
    ensures
        exists|k: nat|
            is_first_free(k, width, height, free_of(snake.cells(), obstacles@)) && r
                == probe_point(k, width, height),
{
    let occupied = mark_cells(width, height, snake, obstacles, true);
    let ghost free = free_of(snake.cells(), obstacles@);
    let ghost kw: nat = choose|k: nat| 1 <= k <= width * height && free(#[trigger] probe_point(k, width, height));
    let ghost mut s: nat = 0;
    let mut i: u16 = 0;
    loop
        invariant
            search_dims_ok(width, height),
            free == free_of(snake.cells(), obstacles@),
            occupied@.len() == width * height,
            forall|j: int| 0 <= j < width * height ==> occupied@[j] == (marked_on_board(snake.cells(), width, height, j) || marked_on_board(obstacles@, width, height, j)),
            1 <= kw,
            free(probe_point(kw, width, height)),
            s < kw,
            i == probe(s, (width * height) as nat),
            forall|j: nat| 1 <= j <= s ==> !free(#[trigger] probe_point(j, width, height)),
        decreases kw - s,
    {
        let (ni, p) = next_probe(i, width, height, Ghost(s));
        i = ni;
        proof {
            s = s + 1;
            lemma_marked_on_board_iff_contains(snake.cells(), p, width, height);
            lemma_marked_on_board_iff_contains(obstacles@, p, width, height);
        }
        let idx = (p.y as usize) * (width as usize) + (p.x as usize);
        if !occupied[idx] {
            assert(is_first_free(s, width, height, free));
            return p;
        }
        assert(!free(probe_point(s, width, height)));
    }
}

/// Two probe numbers that are both the first free one are the same; so any two
/// searches with the same notion of a free cell find the same cell.
pub proof fn lemma_first_free_unique(k1: nat, k2: nat, w: u16, h: u16, free: spec_fn(Point) -> bool)
    requires
        is_first_free(k1, w, h, free),
        is_first_free(k2, w, h, free),
    ensures
        k1 == k2,
        probe_point(k1, w, h) == probe_point(k2, w, h),
{
    if k1 < k2 {
        assert(!free(probe_point(k1, w, h)));
    } else if k2 < k1 {
        assert(!free(probe_point(k2, w, h)));
    }
}

/// On a board where every point of the snake and of the obstacles lies on
/// the board, a point of the search is free by cell index exactly when it is
/// free by the points themselves, so the index searches end and stop on the
/// same probe as the plain search.
pub proof fn lemma_index_search_agrees(w: u16, h: u16, snake: Seq<Point>, obstacles: Seq<Point>)
    requires
        search_dims_ok(w, h),
        all_on_board(snake, w, h),
        all_on_board(obstacles, w, h),
    ensures
        all_indexed(snake, w, h),
        all_indexed(obstacles, w, h),
        forall|k: nat| #[trigger] free_by_index(snake, obstacles, w)(probe_point(k, w, h)) == free_of(snake, obstacles)(probe_point(k, w, h)),
        search_ends(w, h, free_by_index(snake, obstacles, w)) == search_ends(w, h, free_of(snake, obstacles)),
        forall|k: nat| #[trigger] is_first_free(k, w, h, free_by_index(snake, obstacles, w)) == is_first_free(k, w, h, free_of(snake, obstacles)),
{
    assert forall|i: int| 0 <= i < snake.len() implies cell_index(#[trigger] snake[i], w) < w * h by {
        lemma_on_board_index(snake[i], w, h);
    }
    assert forall|i: int| 0 <= i < obstacles.len() implies cell_index(#[trigger] obstacles[i], w) < w * h by {
        lemma_on_board_index(obstacles[i], w, h);
    }
    assert forall|k: nat| #[trigger] free_by_index(snake, obstacles, w)(probe_point(k, w, h)) == free_of(snake, obstacles)(probe_point(k, w, h)) by {
        lemma_probe_point_on_board(k, w, h);
        lemma_marked_all_on_board(snake, probe_point(k, w, h), w, h);
        lemma_marked_all_on_board(obstacles, probe_point(k, w, h), w, h);
    }
    if search_ends(w, h, free_by_index(snake, obstacles, w)) {
        let k = choose|k: nat| 1 <= k <= w * h && free_by_index(snake, obstacles, w)(#[trigger] probe_point(k, w, h));
        assert(free_of(snake, obstacles)(probe_point(k, w, h)));
    }
    if search_ends(w, h, free_of(snake, obstacles)) {
        let k = choose|k: nat| 1 <= k <= w * h && free_of(snake, obstacles)(#[trigger] probe_point(k, w, h));
        assert(free_by_index(snake, obstacles, w)(probe_point(k, w, h)));
    }
    assert forall|k: nat| #[trigger] is_first_free(k, w, h, free_by_index(snake, obstacles, w)) == is_first_free(k, w, h, free_of(snake, obstacles)) by {
        assert(free_by_index(snake, obstacles, w)(probe_point(k, w, h)) == free_of(snake, obstacles)(probe_point(k, w, h)));
        assert forall|j: nat| 1 <= j < k implies free_by_index(snake, obstacles, w)(#[trigger] probe_point(j, w, h)) == free_of(snake, obstacles)(probe_point(j, w, h)) by {
            assert(free_by_index(snake, obstacles, w)(probe_point(j, w, h)) == free_of(snake, obstacles)(probe_point(j, w, h)));
        }
    }
}

/// A point on the board has a cell index inside the grid.
proof fn lemma_on_board_index(p: Point, w: u16, h: u16)
    requires
        p.x < w,
        p.y < h,
    ensures
        cell_index(p, w) < w * h,
{
    assert(p.y * w + p.x < w * h) by (nonlinear_arith)
        requires
            p.x < w,
            p.y < h,
    ;
}

/// Every probe lands on the board.
proof fn lemma_probe_point_on_board(k: nat, w: u16, h: u16)
    requires
        search_dims_ok(w, h),
    ensures
        probe_point(k, w, h).x < w,
        probe_point(k, w, h).y < h,
{
    assert(w * h > 0) by (nonlinear_arith)
        requires
            w >= 2,
            h >= 2,
    ;
    lemma_probe_bound(k, (w * h) as nat);
    lemma_probe_cell_in_grid(probe(k, (w * h) as nat), w, h);
}

/// With every point of `s` on the board, `s` marks the cell index of a
/// point `p` on the board exactly when it holds `p`.
proof fn lemma_marked_all_on_board(s: Seq<Point>, p: Point, w: u16, h: u16)
    requires
        all_on_board(s, w, h),
        p.x < w,
        p.y < h,
    ensures
        marked(s, w, cell_index(p, w)) == s.contains(p),
{
    lemma_marked_on_board_iff_contains(s, p, w, h);
    if marked(s, w, cell_index(p, w)) {
        let i = choose|i: int| 0 <= i < s.len() && cell_index(#[trigger] s[i], w) == cell_index(p, w);
        assert(s[i].x < w && s[i].y < h);
    }
}

/// The grid search of `generate_food_vec_of_bools` finds the cell that
/// `generate_food_baseline` finds, when every point of the snake and of the
/// obstacles lies on the board.
pub proof fn lemma_vec_of_bools_matches_baseline(
    w: u16,
    h: u16,
    snake: Seq<Point>,
    obstacles: Seq<Point>,
    by_grid: Point,
    by_points: Point,
)
    requires
        search_dims_ok(w, h),
        all_on_board(snake, w, h),
        all_on_board(obstacles, w, h),
        exists|k: nat| is_first_free(k, w, h, free_by_index(snake, obstacles, w)) && by_grid == probe_point(k, w, h),
        exists|k: nat| is_first_free(k, w, h, free_of(snake, obstacles)) && by_points == probe_point(k, w, h),
    ensures
        by_grid == by_points,
{
    lemma_index_search_agrees(w, h, snake, obstacles);
    let k1 = choose|k: nat| is_first_free(k, w, h, free_by_index(snake, obstacles, w)) && by_grid == probe_point(k, w, h);
    let k2 = choose|k: nat| is_first_free(k, w, h, free_of(snake, obstacles)) && by_points == probe_point(k, w, h);
    assert(is_first_free(k1, w, h, free_of(snake, obstacles)));
    lemma_first_free_unique(k1, k2, w, h, free_of(snake, obstacles));
}

/// Bit `r` of the word `a`.
pub open spec fn word_bit(a: u64, r: u64) -> bool {
    (a >> r) & 1 == 1
}

/// Cell `j` of a bit grid packed 64 cells to a word.
pub open spec fn grid_bit(words: Seq<u64>, j: int) -> bool {
    word_bit(words[j / 64], (j % 64) as u64)
}

proof fn lemma_set_bit(a: u64, r: u64, s: u64)
    requires
        r < 64,
        s < 64,
    ensures
        word_bit(a | (1u64 << r), s) == (word_bit(a, s) || r == s),
{
    assert(((a | (1u64 << r)) >> s) & 1 == 1 <==> ((a >> s) & 1 == 1 || r == s)) by (bit_vector)
        requires
            r < 64,
            s < 64,
    ;
}

proof fn lemma_test_bit(a: u64, s: u64)
    requires
        s < 64,
    ensures
        ((a & (1u64 << s)) == 0) == !word_bit(a, s),
{
    assert(((a & (1u64 << s)) == 0) <==> !((a >> s) & 1 == 1)) by (bit_vector)
        requires
            s < 64,
    ;
}

proof fn lemma_zero_bit(s: u64)
    ensures
        !word_bit(0, s),
{
    assert(!((0u64 >> s) & 1 == 1)) by (bit_vector);
}

/// Sets in the bit grid the cell of `p`, which must lie in the grid.
fn mark_bit(words: Vec<u64>, p: Point, width: u16, height: u16) -> (r: Vec<u64>)
    requires
        search_dims_ok(width, height),
        words@.len() * 64 >= width * height,
        cell_index(p, width) < width * height,
    ensures
        r@.len() == words@.len(),
        forall|j: int| 0 <= j < width * height ==> #[trigger] grid_bit(r@, j) == (grid_bit(words@, j) || cell_index(p, width) == j),
{
    let mut words = words;
    let idx = (p.y as usize) * (width as usize) + (p.x as usize);
    let q = idx / 64;
    let r = (idx % 64) as u64;
    let ghost before = words@;
    assert(idx == cell_index(p, width));
    assert(idx == 64 * q + r);
    let w = words[q];
    words.set(q, w | (1u64 << r));
    proof {
        assert forall|j: int| 0 <= j < width * height implies #[trigger] grid_bit(words@, j) == (grid_bit(before, j) || cell_index(p, width) == j) by {
            let jq = j / 64;
            let jr = (j % 64) as u64;
            if jq == q {
                lemma_set_bit(w, r, jr);
                assert(j == 64 * jq + j % 64);
            } else {
                assert(words@[jq] == before[jq]);
                assert(j != idx);
            }
        }
    }
    words
}

/// The grid search with the occupied cells packed 64 to a `u64` word.
pub fn generate_food_bitvec(width: u16, height: u16, snake: &Snake, obstacles: &[Point]) -> (r: Point)
    requires
        search_dims_ok(width, height),
        all_indexed(snake.cells(), width, height),
        all_indexed(obstacles@, width, height),
        search_ends(width, height, free_by_index(snake.cells(), obstacles@, width)),
    ensures
        exists|k: nat|
            is_first_free(k, width, height, free_by_index(snake.cells(), obstacles@, width)) && r
                == probe_point(k, width, height),
{
    let n: usize = (width as usize) * (height as usize);
    let nw: usize = (n + 63) / 64;
    let mut occupied: Vec<u64> = Vec::new();
    let mut k: usize = 0;
    while k < nw
        invariant
            n == width * height,
            nw == (n + 63) / 64,
            occupied@.len() == k,
            k <= nw,
            forall|j: int| 0 <= j < k ==> occupied@[j] == 0,
        decreases nw - k,
    {
        occupied.push(0u64);
        k = k + 1;
    }
    proof {
        assert forall|j: int| 0 <= j < n implies !grid_bit(occupied@, j) by {
            lemma_zero_bit((j % 64) as u64);
        }
    }
    let ghost sc = snake.cells();
    let ghost ob = obstacles@;
    let blen = snake.body.len();
    let mut i: usize = 0;
    while i < blen
        invariant
            search_dims_ok(width, height),
            sc == snake.cells(),
            blen == sc.len(),
            n == width * height,
            occupied@.len() == nw,
            nw == (n + 63) / 64,
            0 <= i <= blen,
            all_indexed(sc, width, height),
            forall|j: int| 0 <= j < n ==> grid_bit(occupied@, j) == marked(sc.take(i as int), width, j),
        decreases blen - i,
    {
        let p = snake.body[i];
        occupied = mark_bit(occupied, p, width, height);
        proof {
            let t = sc.take(i as int);
            let t1 = sc.take(i + 1);
            assert(t1 == t.push(p));
            assert forall|j: int| 0 <= j < n implies grid_bit(occupied@, j) == marked(t1, width, j) by {
                if marked(t, width, j) {
                    let w = choose|w: int| 0 <= w < t.len() && cell_index(#[trigger] t[w], width) == j;
                    assert(t1[w] == t[w]);
                }
                if marked(t1, width, j) && !marked(t, width, j) {
                    let w = choose|w: int| 0 <= w < t1.len() && cell_index(#[trigger] t1[w], width) == j;
                    if w < t.len() { assert(t1[w] == t[w]); }
                }
                if cell_index(p, width) == j {
                    assert(t1[i as int] == p);
                }
            }
        }
        i = i + 1;
    }
    assert(sc.take(blen as int) == sc);
    let olen = obstacles.len();
    let mut i: usize = 0;
    while i < olen
        invariant
            search_dims_ok(width, height),
            sc == snake.cells(),
            ob == obstacles@,
            olen == ob.len(),
            n == width * height,
            occupied@.len() == nw,
            nw == (n + 63) / 64,
            0 <= i <= olen,
            all_indexed(ob, width, height),
            forall|j: int| 0 <= j < n ==> grid_bit(occupied@, j) == (marked(sc, width, j) || marked(ob.take(i as int), width, j)),
        decreases olen - i,
    {
        let p = obstacles[i];
        occupied = mark_bit(occupied, p, width, height);
        proof {
            let t = ob.take(i as int);
            let t1 = ob.take(i + 1);
            assert(t1 == t.push(p));
            assert forall|j: int| 0 <= j < n implies grid_bit(occupied@, j) == (marked(sc, width, j) || marked(t1, width, j)) by {
                if marked(t, width, j) {
                    let w = choose|w: int| 0 <= w < t.len() && cell_index(#[trigger] t[w], width) == j;
                    assert(t1[w] == t[w]);
                }
                if marked(t1, width, j) && !marked(t, width, j) {
                    let w = choose|w: int| 0 <= w < t1.len() && cell_index(#[trigger] t1[w], width) == j;
                    if w < t.len() { assert(t1[w] == t[w]); }
                }
                if cell_index(p, width) == j {
                    assert(t1[i as int] == p);
                }
            }
        }
        i = i + 1;
    }
    assert(ob.take(olen as int) == ob);
    let ghost free = free_by_index(snake.cells(), obstacles@, width);
    let ghost kw: nat = choose|k: nat| 1 <= k <= width * height && free(#[trigger] probe_point(k, width, height));
    let ghost mut s: nat = 0;
    let mut i: u16 = 0;
    loop
        invariant
            search_dims_ok(width, height),
            free == free_by_index(snake.cells(), obstacles@, width),
            n == width * height,
            occupied@.len() == nw,
            nw == (n + 63) / 64,
            forall|j: int| 0 <= j < n ==> grid_bit(occupied@, j) == (marked(snake.cells(), width, j) || marked(obstacles@, width, j)),
            1 <= kw,
            free(probe_point(kw, width, height)),
            s < kw,
            i == probe(s, (width * height) as nat),
            forall|j: nat| 1 <= j <= s ==> !free(#[trigger] probe_point(j, width, height)),
        decreases kw - s,
    {
        let (ni, p) = next_probe(i, width, height, Ghost(s));
        i = ni;
        proof {
            s = s + 1;
        }
        let idx = (p.y as usize) * (width as usize) + (p.x as usize);
        let bit = (idx % 64) as u64;
        assert(idx == cell_index(p, width));
        assert(grid_bit(occupied@, idx as int) == (marked(snake.cells(), width, idx as int) || marked(obstacles@, width, idx as int)));
        proof {
            lemma_test_bit(occupied@[(idx / 64) as int], bit);
        }
        if occupied[idx / 64] & (1u64 << bit) == 0 {
            assert(is_first_free(s, width, height, free));
            return p;
        }
        assert(!free(probe_point(s, width, height)));
    }
}

} // verus!
