use crate::game::{abs_diff, cells_of, dir_at, dir_of_index, inside, on_board, vec_contains, Game};
use crate::grid::Grid;
use crate::pointset::PointSet;
use std::collections::VecDeque;
use crate::kinds::{GameMode, Laser, PowerUpType};
use crate::snake::{spec_step, Direction, Point};
use vstd::prelude::*;

verus! {

/// `a` or `b`, whichever is larger.
pub open spec fn max_int(a: int, b: int) -> int {
    if a >= b { a } else { b }
}

/// The index of the first cell of `s` equal to `p`, or `s.len()`.
pub open spec fn first_at(s: Seq<Point>, p: Point) -> int
    decreases s.len(),
{
    if s.len() == 0 {
        0
    } else if s[0] == p {
        0
    } else {
        1 + first_at(s.drop_first(), p)
    }
}

proof fn lemma_first_at(s: Seq<Point>, p: Point, i: int)
    requires
        0 <= i < s.len(),
        s[i] == p,
        forall|j: int| 0 <= j < i ==> s[j] != p,
    ensures
        first_at(s, p) == i,
    decreases s.len(),
{
    if i > 0 {
        assert forall|j: int| 0 <= j < i - 1 implies s.drop_first()[j] != p by {
            assert(s.drop_first()[j] == s[j + 1]);
        }
        lemma_first_at(s.drop_first(), p, i - 1);
    }
}

/// How many steps it takes until the body cell at `p` of `body` has moved
/// away (capped at `u16::MAX`), or 0 when `p` is not part of `body`.
pub open spec fn clear_after(body: Seq<Point>, p: Point) -> int {
    if body.contains(p) {
        let d = body.len() - first_at(body, p);
        if d <= u16::MAX { d } else { u16::MAX as int }
    } else {
        0
    }
}

/// Whether a laser threatens `p` after `steps` moves of the snake: when
/// time stands still, only the laser's own cell; otherwise a cell on its ray
/// about as far away as the laser travels (two cells a move) in that time.
pub open spec fn laser_threat(l: Laser, p: Point, steps: u16, frozen: bool) -> bool {
    if frozen {
        p == l.position
    } else {
        let dx = p.x - l.position.x;
        let dy = p.y - l.position.y;
        let on_ray = match l.direction {
            Direction::Up => dx == 0 && dy <= 0,
            Direction::Down => dx == 0 && dy >= 0,
            Direction::Left => dy == 0 && dx <= 0,
            Direction::Right => dy == 0 && dx >= 0,
        };
        on_ray && abs_diff(2 * steps, max_int(abs_diff(dx, 0), abs_diff(dy, 0))) <= 2
    }
}

impl Game {
    /// Whether nothing can hurt a snake at `now` (Unix seconds).
    pub open spec fn invincible(&self, now: u64) -> bool {
        self.mode == GameMode::Zen || self.power_active(PowerUpType::Invincibility, now)
    }

    /// How many ticks the boss takes per move.
    pub open spec fn boss_move_threshold(&self) -> int {
        let base = if self.mode == GameMode::BossRush {
            max_int(1, crate::game::sat_sub(3, (if self.campaign_level <= 255 { self.campaign_level as int } else { 255 }) / 5))
        } else {
            2
        };
        match self.boss {
            Some(b) => if b.health <= b.max_health / 2 { max_int(1, base / 2) } else { base },
            None => base,
        }
    }

    /// How many ticks the boss takes per shot.
    pub open spec fn boss_shoot_threshold(&self) -> int {
        let base = if self.mode == GameMode::BossRush {
            max_int(5, crate::game::sat_sub(15, if self.campaign_level <= 255 { self.campaign_level as int } else { 255 }))
        } else {
            15
        };
        match self.boss {
            Some(b) => if b.health <= b.max_health / 2 { max_int(1, base / 2) } else { base },
            None => base,
        }
    }

    /// Whether the boss threatens `p` after `steps` moves of `player` (the
    /// boss itself, player 3, fears nothing): when time stands still only its
    /// own cell; otherwise a cell it can reach by then, or a cell in its row
    /// or column once it has had time to shoot.
    pub open spec fn boss_threat(&self, p: Point, steps: u16, player: u8, frozen: bool) -> bool {
        match self.boss {
            None => false,
            Some(b) => if frozen {
                p == b.position
            } else if player != 3 {
                let moves = (steps + b.move_timer) / self.boss_move_threshold();
                let dist = abs_diff(p.x as int, b.position.x as int) + abs_diff(p.y as int, b.position.y as int);
                let shoots = (steps + b.shoot_timer) / self.boss_shoot_threshold();
                dist <= moves || (shoots > 0 && (p.x == b.position.x || p.y == b.position.y))
            } else {
                false
            },
        }
    }

    /// Whether the other snake can move onto `p` in its next move, as seen by
    /// `player` at `now`.
    pub open spec fn opponent_threat(&self, p: Point, player: u8, now: u64) -> bool {
        if player == 1 {
            self.player2 is Some && exists|d: int|
                0 <= d < 4 && #[trigger] self.final_p(spec_step(self.player2->0.cells()[0], dir_at(d)), now) == Some(p)
        } else if player == 2 {
            exists|d: int| 0 <= d < 4 && #[trigger] self.final_p(spec_step(self.snake.cells()[0], dir_at(d)), now) == Some(p)
        } else {
            false
        }
    }

    /// Whether `player` (1 or 2, or 3 for the boss) can safely be at `p`
    /// after `steps` moves, at `now` (Unix seconds): always while invincible;
    /// otherwise not on an obstacle, the poison food, a mine or the lightning
    /// column, not where the opponent can move next (on the first move), not
    /// in reach of the boss or a laser, and not on a body cell that will not
    /// have moved away by then.
    pub open spec fn safe_at(&self, p: Point, steps: u16, player: u8, now: u64) -> bool {
        let frozen = self.power_active(PowerUpType::TimeFreeze, now);
        ||| self.invincible(now)
        ||| {
            &&& !self.obstacles.has(p)
            &&& !(self.poison_food matches Some((q, _)) && q == p)
            &&& !self.mines.has(p)
            &&& !(self.lightning_column matches Some(c) && c == p.x)
            &&& !(steps == 1 && self.opponent_threat(p, player, now))
            &&& !self.boss_threat(p, steps, player, frozen)
            &&& forall|i: int| 0 <= i < self.lasers@.len() ==> !laser_threat(#[trigger] self.lasers@[i], p, steps, frozen)
            &&& steps >= clear_after(self.snake.cells(), p)
            &&& steps >= clear_after(cells_of(self.player2), p)
        }
    }
}

fn laser_threatens(l: Laser, p: Point, steps: u16, frozen: bool) -> (r: bool)
    ensures
        r == laser_threat(l, p, steps, frozen),
{
    if frozen {
        return p == l.position;
    }
    let dx: i32 = p.x as i32 - l.position.x as i32;
    let dy: i32 = p.y as i32 - l.position.y as i32;
    let on_ray = match l.direction {
        Direction::Up => dx == 0 && dy <= 0,
        Direction::Down => dx == 0 && dy >= 0,
        Direction::Left => dy == 0 && dx <= 0,
        Direction::Right => dy == 0 && dx >= 0,
    };
    if !on_ray {
        return false;
    }
    let ax: u32 = if dx >= 0 { dx as u32 } else { (-dx) as u32 };
    let ay: u32 = if dy >= 0 { dy as u32 } else { (-dy) as u32 };
    let d: u32 = if ax >= ay { ax } else { ay };
    let step_dist: u32 = steps as u32 * 2;
    let diff: u32 = if step_dist >= d { step_dist - d } else { d - step_dist };
    diff <= 2
}

impl Game {
    fn opponent_reaches(&self, p: Point, player: u8, now: u64) -> (r: bool)
        requires
            self.wf(),
        ensures
            r == self.opponent_threat(p, player, now),
    {
        let head = if player == 1 {
            match &self.player2 {
                Some(p2) => p2.head(),
                None => {
                    return false;
                },
            }
        } else if player == 2 {
            self.snake.head()
        } else {
            return false;
        };
        let mut d: usize = 0;
        while d < 4
            invariant
                self.wf(),
                d <= 4,
                player == 1 ==> self.player2 is Some && head == self.player2->0.cells()[0],
                player == 2 ==> head == self.snake.cells()[0],
                player == 1 || player == 2,
                on_board(head, self.width, self.height),
                forall|e: int| 0 <= e < d ==> #[trigger] self.final_p(spec_step(head, dir_at(e)), now) != Some(p),
            decreases 4 - d,
        {
            let next = Self::calculate_next_head_dir(head, dir_of_index(d));
            if self.get_final_p_at(next, now) == Some(p) {
                return true;
            }
            d = d + 1;
        }
        false
    }

    fn boss_reaches(&self, p: Point, steps: u16, player: u8, frozen: bool) -> (r: bool)
        ensures
            r == self.boss_threat(p, steps, player, frozen),
    {
        let b = match &self.boss {
            Some(b) => *b,
            None => {
                return false;
            },
        };
        if frozen {
            return p == b.position;
        }
        if player == 3 {
            return false;
        }
        let level: u32 = if self.campaign_level <= 255 { self.campaign_level } else { 255 };
        let mut move_threshold: u32 = if self.mode == GameMode::BossRush {
            let m = if 3 >= level / 5 { 3 - level / 5 } else { 0 };
            if m >= 1 { m } else { 1 }
        } else {
            2
        };
        if b.health <= b.max_health / 2 {
            move_threshold = if move_threshold / 2 >= 1 { move_threshold / 2 } else { 1 };
        }
        assert(move_threshold == self.boss_move_threshold());
        let moves = (steps as u32 + b.move_timer as u32) / move_threshold;
        let dx: u32 = if p.x >= b.position.x { (p.x - b.position.x) as u32 } else { (b.position.x - p.x) as u32 };
        let dy: u32 = if p.y >= b.position.y { (p.y - b.position.y) as u32 } else { (b.position.y - p.y) as u32 };
        if dx + dy <= moves {
            return true;
        }
        let mut shoot_threshold: u32 = if self.mode == GameMode::BossRush {
            let m = if 15 >= level { 15 - level } else { 0 };
            if m >= 5 { m } else { 5 }
        } else {
            15
        };
        if b.health <= b.max_health / 2 {
            shoot_threshold = if shoot_threshold / 2 >= 1 { shoot_threshold / 2 } else { 1 };
        }
        assert(shoot_threshold == self.boss_shoot_threshold());
        let shoots = (steps as u32 + b.shoot_timer as u32) / shoot_threshold;
        shoots > 0 && (p.x == b.position.x || p.y == b.position.y)
    }

    fn lasers_reach(&self, p: Point, steps: u16, frozen: bool) -> (r: bool)
        ensures
            r == exists|i: int| 0 <= i < self.lasers@.len() && laser_threat(#[trigger] self.lasers@[i], p, steps, frozen),
    {
        let mut i: usize = 0;
        while i < self.lasers.len()
            invariant
                i <= self.lasers@.len(),
                forall|j: int| 0 <= j < i ==> !laser_threat(#[trigger] self.lasers@[j], p, steps, frozen),
            decreases self.lasers@.len() - i,
        {
            if laser_threatens(self.lasers[i], p, steps, frozen) {
                assert(laser_threat(self.lasers@[i as int], p, steps, frozen));
                return true;
            }
            i = i + 1;
        }
        false
    }

    fn body_blocks(body: &crate::snake::Snake, p: Point, steps: u16) -> (r: bool)
        ensures
            r == (steps < clear_after(body.cells(), p)),
    {
        match body.position(p) {
            Some(i) => {
                proof {
                    assert(body.cells().contains(p));
                    lemma_first_at(body.cells(), p, i as int);
                }
                let d = body.body.len() - i;
                let clear: u16 = if d <= 65535 { d as u16 } else { 65535 };
                steps < clear
            },
            None => false,
        }
    }

    /// Whether `player` can safely be at `final_p` after `steps` moves, at
    /// `now` (Unix seconds); see `safe_at`.
    pub fn is_safe_final_p_at(&self, final_p: Point, steps: u16, checking_player: u8, now: u64) -> (r: bool)
        requires
            self.wf(),
        ensures
            r == self.safe_at(final_p, steps, checking_player, now),
    {
        let is_invincible = self.mode == GameMode::Zen || self.is_power_active(PowerUpType::Invincibility, now);
        if is_invincible {
            return true;
        }
        let frozen = self.is_power_active(PowerUpType::TimeFreeze, now);
        if self.obstacles.contains(final_p) {
            return false;
        }
        if let Some((q, _)) = self.poison_food {
            if q == final_p {
                return false;
            }
        }
        if self.mines.contains(final_p) {
            return false;
        }
        if let Some(c) = self.lightning_column {
            if c == final_p.x {
                return false;
            }
        }
        if steps == 1 && self.opponent_reaches(final_p, checking_player, now) {
            return false;
        }
        if self.boss_reaches(final_p, steps, checking_player, frozen) {
            return false;
        }
        if self.lasers_reach(final_p, steps, frozen) {
            return false;
        }
        if Self::body_blocks(&self.snake, final_p, steps) {
            return false;
        }
        if let Some(p2) = &self.player2 {
            if Self::body_blocks(p2, final_p, steps) {
                return false;
            }
        }
        true
    }

    /// Whether `player` can safely be at `final_p` after `steps` moves now,
    /// by the system clock.
    pub fn is_safe_final_p(&self, final_p: Point, steps: u16, checking_player: u8) -> (r: bool)
        requires
            self.wf(),
        ensures
            exists|now: u64| r == self.safe_at(final_p, steps, checking_player, now),
    {
        let now = crate::clock::now_millis() / 1000;
        self.is_safe_final_p_at(final_p, steps, checking_player, now)
    }
}

/// Where a walk from `start` taking the steps `ds` ends (without wrapping).
pub open spec fn walk(start: Point, ds: Seq<Direction>) -> Point
    decreases ds.len(),
{
    if ds.len() == 0 {
        start
    } else {
        spec_step(walk(start, ds.drop_last()), ds.last())
    }
}

/// The index of `d` in the order up, down, left, right.
pub open spec fn dir_index(d: Direction) -> int {
    match d {
        Direction::Up => 0,
        Direction::Down => 1,
        Direction::Left => 2,
        Direction::Right => 3,
    }
}

impl Game {
    /// Whether the boss may step onto `p` as its `depth`-th move at `now`:
    /// inside the safe zone, off the obstacles, and safe for it.
    pub open spec fn passable(&self, p: Point, depth: int, now: u64) -> bool {
        inside(p, self.width, self.height, self.margin()) && !self.obstacles.has(p) && self.safe_at(p, depth as u16, 3, now)
    }

    /// Whether `p` is passable for the boss whenever it gets there: inside
    /// the safe zone, off the obstacles, and safe after any number of moves.
    pub open spec fn always_passable(&self, p: Point, now: u64) -> bool {
        &&& inside(p, self.width, self.height, self.margin())
        &&& !self.obstacles.has(p)
        &&& forall|k: u16| k >= 1 ==> #[trigger] self.safe_at(p, k, 3, now)
    }

    /// Whether every cell of the walk `ds` from `start` is passable for the
    /// boss whenever it gets there (see `always_passable`).
    pub open spec fn stable_walk(&self, start: Point, ds: Seq<Direction>, now: u64) -> bool {
        forall|i: int| 1 <= i <= ds.len() ==> #[trigger] self.always_passable(walk(start, ds.take(i)), now)
    }

    /// Whether every neighbour of `c` that is always passable is in `vis`.
    pub open spec fn closed_at(&self, vis: PointSet, c: Point, now: u64) -> bool {
        forall|j: int| 0 <= j < 4 && #[trigger] self.always_passable(spec_step(c, dir_at(j)), now) ==> vis.has(spec_step(c, dir_at(j)))
    }

    /// Whether every always-passable neighbour of `c` lies at most one step
    /// further than `c` from `start` by the walks `paths` (see `bfs_dist`).
    pub open spec fn closed_dist(&self, paths: Map<Point, Seq<Direction>>, start: Point, c: Point, now: u64) -> bool {
        forall|j: int|
            0 <= j < 4 && #[trigger] self.always_passable(spec_step(c, dir_at(j)), now) ==> bfs_dist(paths, start, spec_step(c, dir_at(j)))
                <= bfs_dist(paths, start, c) + 1
    }

    /// Whether every cell of the walk `ds` from `start` is passable at the
    /// move on which it is reached.
    pub open spec fn valid_walk(&self, start: Point, ds: Seq<Direction>, now: u64) -> bool {
        forall|i: int| 1 <= i <= ds.len() ==> #[trigger] self.passable(walk(start, ds.take(i)), i, now)
    }

    /// Whether the first move of `player` from `start` in direction `i`
    /// (see `dir_at`) leads to a cell where it is safe at `now`.
    pub open spec fn safe_first(&self, start: Point, i: int, player: u8, now: u64) -> bool {
        match self.final_p(spec_step(start, dir_at(i)), now) {
            Some(q) => self.safe_at(q, 1, player, now),
            None => false,
        }
    }

    /// The cell a move resolves to is on the board.
    pub proof fn lemma_final_on_board(&self, p: Point, now: u64)
        requires
            self.wf(),
        ensures
            self.final_p(p, now) matches Some(q) ==> on_board(q, self.width, self.height),
    {
    }

    /// Whether the move from `from` in direction `i` (see `dir_at`) leads to
    /// another cell where `player` is safe on its second move at `now`.
    pub open spec fn opens_onto(&self, from: Point, i: int, player: u8, now: u64) -> bool {
        match self.final_p(spec_step(from, dir_at(i)), now) {
            Some(q) => q != from && self.safe_at(q, 2, player, now),
            None => false,
        }
    }

    /// How many cells (at most a hundred) a breadth-first search from `from`
    /// reaches through cells that are safe for `player` when it gets there:
    /// more than `from` alone exactly when some move opens onto such a cell.
    fn open_space(&self, from: Point, checking_player: u8, now: u64) -> (n: u32)
        requires
            self.wf(),
            on_board(from, self.width, self.height),
        ensures
            1 <= n <= 100,
            n >= 2 <==> exists|i: int| 0 <= i < 4 && #[trigger] self.opens_onto(from, i, checking_player, now),
    {
        let mut visited = PointSet::new(self.width, self.height);
        let mut queue: VecDeque<(Point, u16)> = VecDeque::new();
        visited.insert(from);
        queue.push_back((from, 1));
        let mut open: u32 = 0;
        while open < 100 && queue.len() > 0
            invariant
                self.wf(),
                open <= 100,
                visited.wf(),
                visited.w() == self.width,
                visited.h() == self.height,
                visited.has(from),
                open == 0 ==> queue@ =~= seq![(from, 1u16)] && forall|p: Point| #[trigger] visited.has(p) ==> p == from,
                open == 1 ==> (queue@.len() > 0 <==> exists|i: int| 0 <= i < 4 && #[trigger] self.opens_onto(from, i, checking_player, now)),
                open >= 2 ==> exists|i: int| 0 <= i < 4 && #[trigger] self.opens_onto(from, i, checking_player, now),
                forall|k: int| 0 <= k < queue@.len() ==> on_board(#[trigger] queue@[k].0, self.width, self.height),
            decreases 100 - open,
        {
            let ghost open0 = open;
            let (curr, steps) = queue.pop_front().unwrap();
            open = open + 1;
            if open < 100 {
                let mut d: usize = 0;
                while d < 4
                    invariant
                        self.wf(),
                        d <= 4,
                        1 <= open < 100,
                        on_board(curr, self.width, self.height),
                        visited.wf(),
                        visited.w() == self.width,
                        visited.h() == self.height,
                        visited.has(from),
                        open == 1 ==> curr == from && steps == 1 && (forall|p: Point| #[trigger] visited.has(p) ==> p == from || queue@.len() > 0)
                            && (queue@.len() > 0 <==> exists|i: int| 0 <= i < d && #[trigger] self.opens_onto(from, i, checking_player, now)),
                        open >= 2 ==> exists|i: int| 0 <= i < 4 && #[trigger] self.opens_onto(from, i, checking_player, now),
                        forall|k: int| 0 <= k < queue@.len() ==> on_board(#[trigger] queue@[k].0, self.width, self.height),
                    decreases 4 - d,
                {
                    let sp = Self::calculate_next_head_dir(curr, dir_of_index(d));
                    let next_steps = steps.saturating_add(1);
                    proof {
                        self.lemma_final_on_board(sp, now);
                    }
                    let ghost q0 = queue@;
                    match self.get_final_p_at(sp, now) {
                        Some(vp) => {
                            if self.is_safe_final_p_at(vp, next_steps, checking_player, now) && !visited.contains(vp) {
                                visited.insert(vp);
                                queue.push_back((vp, next_steps));
                            }
                        },
                        None => {},
                    }
                    proof {
                        if open == 1 {
                            if q0.len() == 0 && queue@.len() > 0 {
                                assert(self.opens_onto(from, d as int, checking_player, now));
                            }
                            if self.opens_onto(from, d as int, checking_player, now) {
                                assert(queue@.len() > 0);
                            }
                        }
                    }
                    d = d + 1;
                }
            }
        }
        open
    }

    /// The first move of `player` from `start` at `now` that leaves the most
    /// room (see `open_space`; the first such move on a tie, in the order up,
    /// down, left, right), among the moves onto a cell where it is safe;
    /// `None` exactly when no move is safe.
    pub fn flood_fill_fallback_at(&self, start: Point, checking_player: u8, now: u64) -> (r: Option<Direction>)
        requires
            self.wf(),
            on_board(start, self.width, self.height),
        ensures
            r matches Some(d) ==> self.safe_first(start, dir_index(d), checking_player, now),
            r is None <==> forall|i: int| 0 <= i < 4 ==> !self.safe_first(start, i, checking_player, now),
    {
        let mut best_dir: Option<Direction> = None;
        let mut max_open: u32 = 0;
        let mut d: usize = 0;
        while d < 4
            invariant
                self.wf(),
                d <= 4,
                on_board(start, self.width, self.height),
                best_dir matches Some(bd) ==> self.safe_first(start, dir_index(bd), checking_player, now) && max_open > 0,
                best_dir is None ==> max_open == 0 && forall|i: int| 0 <= i < d ==> !self.safe_first(start, i, checking_player, now),
            decreases 4 - d,
        {
            let dir = dir_of_index(d);
            let next = Self::calculate_next_head_dir(start, dir);
            proof {
                self.lemma_final_on_board(next, now);
                assert(dir_index(dir) == d);
            }
            match self.get_final_p_at(next, now) {
                Some(fp) => {
                    if self.is_safe_final_p_at(fp, 1, checking_player, now) {
                        let open = self.open_space(fp, checking_player, now);
                        if open > max_open {
                            max_open = open;
                            best_dir = Some(dir);
                        }
                    }
                },
                None => {},
            }
            d = d + 1;
        }
        best_dir
    }

    /// The first move from `start` along a shortest walk to `target` found by
    /// a breadth-first search over passable cells at `now` (see `passable`):
    /// `Some(d)` only for a walk from `start` that begins with `d` and
    /// reaches `target` through passable cells; `None` when `target` is
    /// `start`; and the first neighbour that is the target, when it is
    /// passable. A move is always found when a walk to `target` exists over
    /// cells that are passable whenever the boss gets there (see
    /// `stable_walk`), and the walk the move begins is no longer than any
    /// such walk.
    pub fn bfs_pathfind_at(&self, start: Point, target: Point, now: u64) -> (r: Option<Direction>)
        requires
            self.wf(),
            on_board(start, self.width, self.height),
            (self.width as int) * (self.height as int) < 65535,
        ensures
            r matches Some(d) ==> exists|ds: Seq<Direction>|
                ds.len() >= 1 && ds[0] == d && walk(start, ds) == target && #[trigger] self.valid_walk(start, ds, now) && forall|
                    ws: Seq<Direction>,
                | #[trigger] self.stable_walk(start, ws, now) && walk(start, ws) == target ==> ds.len() <= ws.len(),
            target == start ==> r is None,
            forall|i: int|
                0 <= i < 4 && spec_step(start, dir_at(i)) == target && self.passable(target, 1, now) && (forall|j: int|
                    0 <= j < i ==> !(spec_step(start, dir_at(j)) == target && self.passable(target, 1, now))) ==> r == Some(dir_at(i)),
            target != start && (exists|ds: Seq<Direction>| #[trigger] self.stable_walk(start, ds, now) && walk(start, ds) == target)
                ==> r is Some,
    {
        let ghost hyp = target != start && (exists|ds: Seq<Direction>| #[trigger] self.stable_walk(start, ds, now) && walk(start, ds)
            == target);
        let mut queue: VecDeque<(Point, u16)> = VecDeque::new();
        let mut visited = PointSet::new(self.width, self.height);
        let mut first: Grid<Option<Direction>> = Grid::new(self.width, self.height, None);
        let ghost mut paths: Map<Point, Seq<Direction>> = Map::empty();
        queue.push_back((start, 0));
        visited.insert(start);
        assert(visited.size() == 1);
        let margin = self.margin_now();
        proof {
            assert forall|c: Point| #[trigger] visited.has(c) implies in_queue(queue@, c) by {
                assert(queue@[0].0 == start);
            }
        }
        let mut d: usize = 0;
        while d < 4
            invariant
                self.wf(),
                margin == self.margin(),
                d <= 4,
                on_board(start, self.width, self.height),
                (self.width as int) * (self.height as int) < 65535,
                target != start ==> forall|j: int| 0 <= j < d ==> !(spec_step(start, dir_at(j)) == target && self.passable(target, 1, now)),
                visited.wf(),
                visited.w() == self.width,
                visited.h() == self.height,
                visited.has(start),
                visited.size() >= 1,
                first.wf(),
                first.width() == self.width,
                first.height() == self.height,
                first.at(start) is None,
                queue@.len() >= 1,
                queue@[0] == (start, 0u16),
                forall|k: int| 0 <= k < queue@.len() ==> on_board(#[trigger] queue@[k].0, self.width, self.height)
                    && visited.has(queue@[k].0) && queue@[k].1 <= visited.size(),
                forall|c: Point| #[trigger] first.at(c) is Some && on_board(c, self.width, self.height) ==> visited.has(c)
                    && paths.dom().contains(c) && paths[c].len() >= 1 && first.at(c) == Some(paths[c][0]) && walk(start, paths[c]) == c
                    && self.valid_walk(start, paths[c], now),
                forall|k: int| 0 <= k < queue@.len() && (#[trigger] first.at(queue@[k].0)) is Some ==> paths[queue@[k].0].len() == queue@[k].1,
                forall|c: Point| #[trigger] visited.has(c) ==> in_queue(queue@, c),
                forall|c: Point| #[trigger] visited.has(c) && c != start ==> first.at(c) is Some,
                forall|k: int| 0 <= k < queue@.len() && (#[trigger] queue@[k]).0 == start ==> queue@[k].1 == 0,
                forall|j: int| 0 <= j < d && self.passable(#[trigger] spec_step(start, dir_at(j)), 1, now) ==> visited.has(
                    spec_step(start, dir_at(j)),
                ),
                target != start ==> !visited.has(target),
                forall|k: int| 1 <= k < queue@.len() ==> (#[trigger] queue@[k]).1 == 1,
                forall|k: int| 0 <= k < queue@.len() ==> (#[trigger] queue@[k]).1 == bfs_dist(paths, start, queue@[k].0),
                forall|c: Point| #[trigger] visited.has(c) ==> bfs_dist(paths, start, c) <= 1,
                forall|c: Point| #[trigger] visited.has(c) && c != start ==> paths.dom().contains(c),
            decreases 4 - d,
        {
            let dir = dir_of_index(d);
            let next = Self::calculate_next_head_dir(start, dir);
            if self.is_inside(next, margin) && !self.obstacles.contains(next) && self.is_safe_final_p_at(next, 1, 3, now) {
                proof {
                    let ds = seq![dir];
                    reveal_with_fuel(walk, 2);
                    assert(ds.take(1) =~= ds);
                    assert(ds.drop_last() =~= Seq::<Direction>::empty());
                    assert(walk(start, ds) == next);
                    assert(self.valid_walk(start, ds, now));
                }
                if next == target {
                    proof {
                        assert forall|ws: Seq<Direction>| #[trigger] self.stable_walk(start, ws, now) && walk(start, ws) == target implies seq![
                            dir,
                        ].len() <= ws.len() by {
                            if ws.len() == 0 {
                                assert(walk(start, ws) == start);
                            }
                        }
                    }
                    return Some(dir);
                }
                if !visited.contains(next) {
                    let ghost q0 = queue@;
                    let ghost v0 = visited;
                    let ghost p0 = paths;
                    visited.insert(next);
                    first.set(next, Some(dir));
                    proof {
                        paths = paths.insert(next, seq![dir]);
                        let ds = seq![dir];
                        assert(ds.take(1) =~= ds);
                        assert(ds.drop_last() =~= Seq::<Direction>::empty());
                    }
                    queue.push_back((next, 1));
                    proof {
                        let ds = seq![dir];
                        reveal_with_fuel(walk, 2);
                        assert(ds.drop_last() =~= Seq::<Direction>::empty());
                        assert(walk(start, ds) == next);
                        assert forall|k: int| 0 <= k < queue@.len() && (#[trigger] first.at(queue@[k].0)) is Some implies paths[queue@[k].0].len() == queue@[k].1 by {
                            if k < q0.len() {
                                assert(queue@[k] == q0[k]);
                                if queue@[k].0 == next {
                                    assert(paths[next] == seq![dir]);
                                }
                            }
                        }
                        assert forall|k: int| 0 <= k < queue@.len() implies on_board(#[trigger] queue@[k].0, self.width, self.height)
                            && visited.has(queue@[k].0) && queue@[k].1 <= visited.size() by {
                            if k < q0.len() {
                                assert(queue@[k] == q0[k]);
                            }
                        }
                        assert forall|c: Point| #[trigger] visited.has(c) implies in_queue(queue@, c) by {
                            if c == next {
                                assert(queue@[q0.len() as int].0 == next);
                            } else {
                                let k = choose|k: int| 0 <= k < q0.len() && #[trigger] q0[k].0 == c;
                                assert(queue@[k] == q0[k]);
                            }
                        }
                        assert forall|k: int| 0 <= k < queue@.len() && (#[trigger] queue@[k]).0 == start implies queue@[k].1 == 0 by {
                            if k < q0.len() {
                                assert(queue@[k] == q0[k]);
                            }
                        }
                        assert forall|k: int| 1 <= k < queue@.len() implies (#[trigger] queue@[k]).1 == 1 by {
                            if k < q0.len() {
                                assert(queue@[k] == q0[k]);
                            }
                        }
                        assert forall|c: Point| #[trigger] v0.has(c) implies c != next && bfs_dist(paths, start, c) == bfs_dist(p0, start, c) by {}
                        assert forall|k: int| 0 <= k < queue@.len() implies (#[trigger] queue@[k]).1 == bfs_dist(paths, start, queue@[k].0) by {
                            if k < q0.len() {
                                assert(queue@[k] == q0[k]);
                                assert(v0.has(q0[k].0));
                            }
                        }
                        assert forall|c: Point| #[trigger] visited.has(c) implies bfs_dist(paths, start, c) <= 1 by {
                            if c != next {
                                assert(v0.has(c));
                            }
                        }
                        assert forall|c: Point| #[trigger] visited.has(c) && c != start implies paths.dom().contains(c) by {
                            if c != next {
                                assert(v0.has(c));
                            }
                        }
                    }
                }
            }
            d = d + 1;
        }
        while queue.len() > 0
            invariant
                self.wf(),
                margin == self.margin(),
                on_board(start, self.width, self.height),
                (self.width as int) * (self.height as int) < 65535,
                visited.wf(),
                visited.w() == self.width,
                visited.h() == self.height,
                visited.has(start),
                first.wf(),
                first.width() == self.width,
                first.height() == self.height,
                first.at(start) is None,
                target == start ==> queue@.len() >= 1 && queue@[0] == (start, 0u16),
                forall|k: int| 0 <= k < queue@.len() ==> on_board(#[trigger] queue@[k].0, self.width, self.height)
                    && visited.has(queue@[k].0) && queue@[k].1 <= visited.size(),
                forall|c: Point| #[trigger] first.at(c) is Some && on_board(c, self.width, self.height) ==> visited.has(c)
                    && paths.dom().contains(c) && paths[c].len() >= 1 && first.at(c) == Some(paths[c][0]) && walk(start, paths[c]) == c
                    && self.valid_walk(start, paths[c], now),
                forall|k: int| 0 <= k < queue@.len() && (#[trigger] first.at(queue@[k].0)) is Some ==> paths[queue@[k].0].len() == queue@[k].1,
                target != start ==> forall|j: int| 0 <= j < 4 ==> !(spec_step(start, dir_at(j)) == target && self.passable(target, 1, now)),
                forall|c: Point| #[trigger] visited.has(c) && c != start ==> first.at(c) is Some,
                forall|k: int| 0 <= k < queue@.len() && (#[trigger] queue@[k]).0 == start ==> queue@[k].1 == 0,
                forall|j: int| 0 <= j < 4 && self.passable(#[trigger] spec_step(start, dir_at(j)), 1, now) ==> visited.has(
                    spec_step(start, dir_at(j)),
                ),
                forall|c: Point| #[trigger] visited.has(c) && !in_queue(queue@, c) ==> self.closed_at(visited, c, now),
                target != start && visited.has(target) ==> in_queue(queue@, target),
                forall|i: int, j: int|
                    #![trigger queue@[i], queue@[j]]
                    0 <= i <= j < queue@.len() ==> queue@[i].1 <= queue@[j].1 && queue@[j].1 <= queue@[i].1 + 1,
                queue@.len() > 0 ==> forall|c: Point| #[trigger] visited.has(c) ==> bfs_dist(paths, start, c) <= queue@[0].1 + 1,
                forall|k: int| 0 <= k < queue@.len() ==> (#[trigger] queue@[k]).1 == bfs_dist(paths, start, queue@[k].0),
                forall|c: Point| #[trigger] visited.has(c) && c != start ==> paths.dom().contains(c),
                forall|c: Point| #[trigger] visited.has(c) && !in_queue(queue@, c) ==> self.closed_dist(paths, start, c, now),
                hyp == (target != start && (exists|ds: Seq<Direction>| #[trigger] self.stable_walk(start, ds, now) && walk(start, ds)
                    == target)),
            decreases 2 * (self.width * self.height - visited.size()) + queue@.len(),
        {
            proof {
                visited.lemma_size_bound();
            }
            let ghost q0 = queue@;
            let (current, dist) = queue.pop_front().unwrap();
            proof {
                assert(q0[0] == (current, dist));
                assert(queue@ =~= q0.drop_first());
            }
            proof {
                assert(q0[0].1 == bfs_dist(paths, start, q0[0].0));
                assert forall|c: Point| #[trigger] visited.has(c) && c != current && !in_queue(queue@, c) implies self.closed_dist(
                    paths,
                    start,
                    c,
                    now,
                ) by {
                    if in_queue(q0, c) {
                        let k = choose|k: int| 0 <= k < q0.len() && #[trigger] q0[k].0 == c;
                        assert(k != 0);
                        assert(queue@[k - 1] == q0[k]);
                    }
                }
                assert forall|k: int| 0 <= k < queue@.len() implies dist <= (#[trigger] queue@[k]).1 <= dist + 1 by {
                    assert(queue@[k] == q0[k + 1]);
                    assert(q0[0].1 <= q0[k + 1].1 && q0[k + 1].1 <= q0[0].1 + 1);
                }
                assert forall|i: int, j: int|
                    #![trigger queue@[i], queue@[j]]
                    0 <= i <= j < queue@.len() implies queue@[i].1 <= queue@[j].1 by {
                    assert(queue@[i] == q0[i + 1] && queue@[j] == q0[j + 1]);
                    assert(q0[i + 1].1 <= q0[j + 1].1);
                }
                assert forall|k: int| 0 <= k < queue@.len() implies (#[trigger] queue@[k]).1 == bfs_dist(paths, start, queue@[k].0) by {
                    assert(queue@[k] == q0[k + 1]);
                }
            }
            if current == target {
                proof {
                    if current != start {
                        assert forall|ws: Seq<Direction>| #[trigger] self.stable_walk(start, ws, now) && walk(start, ws) == target implies paths[current].len() <= ws.len() by {
                            assert(bfs_dist(paths, start, current) == dist);
                            if ws.len() < dist {
                                assert forall|c: Point| #[trigger] visited.has(c) && bfs_dist(paths, start, c) < dist implies self.closed_at(
                                    visited,
                                    c,
                                    now,
                                ) && self.closed_dist(paths, start, c, now) by {
                                    if in_queue(q0, c) {
                                        let k = choose|k: int| 0 <= k < q0.len() && #[trigger] q0[k].0 == c;
                                        assert(q0[0].1 <= q0[k].1);
                                        assert(q0[k].1 == bfs_dist(paths, start, q0[k].0));
                                    }
                                }
                                lemma_bfs_short(self, visited, paths, start, ws, dist as int, now);
                                assert(bfs_dist(paths, start, walk(start, ws)) <= ws.len());
                            }
                        }
                    }
                }
                return first.get(current);
            }
            proof {
                assert forall|c: Point| #[trigger] visited.has(c) && c != current && !in_queue(queue@, c) implies self.closed_at(
                    visited,
                    c,
                    now,
                ) by {
                    if in_queue(q0, c) {
                        let k = choose|k: int| 0 <= k < q0.len() && #[trigger] q0[k].0 == c;
                        assert(k != 0);
                        assert(queue@[k - 1] == q0[k]);
                    }
                }
                if target != start && visited.has(target) {
                    let k = choose|k: int| 0 <= k < q0.len() && #[trigger] q0[k].0 == target;
                    assert(k != 0);
                    assert(queue@[k - 1] == q0[k]);
                }
                assert forall|k: int| 0 <= k < queue@.len() && (#[trigger] queue@[k]).0 == start implies queue@[k].1 == 0 by {
                    assert(queue@[k] == q0[k + 1]);
                }
            }
            let cf = first.get(current);
            let ghost m0 = 2 * (self.width * self.height - visited.size()) + queue@.len() + 1;
            let mut e: usize = 0;
            while e < 4
                invariant
                    self.wf(),
                    margin == self.margin(),
                    e <= 4,
                    on_board(start, self.width, self.height),
                    on_board(current, self.width, self.height),
                    (self.width as int) * (self.height as int) < 65535,
                    dist <= visited.size(),
                    cf == first.at(current),
                    cf is Some ==> paths.dom().contains(current) && paths[current].len() == dist && paths[current].len() >= 1
                        && cf == Some(paths[current][0]) && walk(start, paths[current]) == current
                        && self.valid_walk(start, paths[current], now),
                    visited.wf(),
                    visited.w() == self.width,
                    visited.h() == self.height,
                    visited.has(start),
                    visited.has(current),
                    first.wf(),
                    first.width() == self.width,
                    first.height() == self.height,
                    first.at(start) is None,
                    forall|k: int| 0 <= k < queue@.len() ==> on_board(#[trigger] queue@[k].0, self.width, self.height)
                        && visited.has(queue@[k].0) && queue@[k].1 <= visited.size(),
                    forall|c: Point| #[trigger] first.at(c) is Some && on_board(c, self.width, self.height) ==> visited.has(c)
                        && paths.dom().contains(c) && paths[c].len() >= 1 && first.at(c) == Some(paths[c][0]) && walk(start, paths[c]) == c
                        && self.valid_walk(start, paths[c], now),
                    forall|k: int| 0 <= k < queue@.len() && (#[trigger] first.at(queue@[k].0)) is Some ==> paths[queue@[k].0].len() == queue@[k].1,
                    2 * (self.width * self.height - visited.size()) + queue@.len() < m0,
                    current != target,
                    current == start ==> dist == 0,
                    forall|c: Point| #[trigger] visited.has(c) && c != start ==> first.at(c) is Some,
                    forall|k: int| 0 <= k < queue@.len() && (#[trigger] queue@[k]).0 == start ==> queue@[k].1 == 0,
                    forall|j: int| 0 <= j < 4 && self.passable(#[trigger] spec_step(start, dir_at(j)), 1, now) ==> visited.has(
                        spec_step(start, dir_at(j)),
                    ),
                    forall|c: Point| #[trigger] visited.has(c) && c != current && !in_queue(queue@, c) ==> self.closed_at(
                        visited,
                        c,
                        now,
                    ),
                    forall|j: int| 0 <= j < e && #[trigger] self.always_passable(spec_step(current, dir_at(j)), now) ==> visited.has(
                        spec_step(current, dir_at(j)),
                    ),
                    target != start && visited.has(target) ==> in_queue(queue@, target),
                    forall|k: int| 0 <= k < queue@.len() ==> dist <= (#[trigger] queue@[k]).1 <= dist + 1,
                    forall|i: int, j: int| #![trigger queue@[i], queue@[j]] 0 <= i <= j < queue@.len() ==> queue@[i].1 <= queue@[j].1,
                    forall|c: Point| #[trigger] visited.has(c) ==> bfs_dist(paths, start, c) <= dist + 1,
                    forall|c: Point| #[trigger] visited.has(c) && c != current && !in_queue(queue@, c) ==> self.closed_dist(
                        paths,
                        start,
                        c,
                        now,
                    ),
                    bfs_dist(paths, start, current) == dist,
                    forall|k: int| 0 <= k < queue@.len() ==> (#[trigger] queue@[k]).1 == bfs_dist(paths, start, queue@[k].0),
                    forall|c: Point| #[trigger] visited.has(c) && c != start ==> paths.dom().contains(c),
                decreases 4 - e,
            {
                proof {
                    visited.lemma_size_bound();
                }
                let dir = dir_of_index(e);
                let next = Self::calculate_next_head_dir(current, dir);
                let ghost v0 = visited;
                let ghost qa = queue@;
                if self.is_inside(next, margin) && !self.obstacles.contains(next) && !visited.contains(next)
                    && self.is_safe_final_p_at(next, dist + 1, 3, now) {
                    proof {
                        if current == start {
                            assert(self.passable(spec_step(start, dir_at(e as int)), 1, now));
                        }
                        assert(current != start);
                        assert(cf is Some);
                    }
                    visited.insert(next);
                    if let Some(f) = cf {
                        first.set(next, Some(f));
                        proof {
                            let ds = paths[current];
                            lemma_extend_walk(self, start, ds, dir, now);
                            paths = paths.insert(next, ds.push(dir));
                            assert(ds.push(dir)[0] == ds[0]);
                        }
                    }
                    let ghost q0 = queue@;
                    queue.push_back((next, dist + 1));
                    proof {
                        assert forall|k: int| 0 <= k < queue@.len() && (#[trigger] first.at(queue@[k].0)) is Some implies paths[queue@[k].0].len() == queue@[k].1 by {
                            if k < q0.len() {
                                assert(queue@[k] == q0[k]);
                                assert(queue@[k].0 != next);
                            }
                        }
                        assert forall|k: int| 0 <= k < queue@.len() implies on_board(#[trigger] queue@[k].0, self.width, self.height)
                            && visited.has(queue@[k].0) && queue@[k].1 <= visited.size() by {
                            if k < q0.len() {
                                assert(queue@[k] == q0[k]);
                            }
                        }
                        assert forall|k: int| 0 <= k < queue@.len() && (#[trigger] queue@[k]).0 == start implies queue@[k].1 == 0 by {
                            if k < q0.len() {
                                assert(queue@[k] == q0[k]);
                            }
                        }
                        assert(queue@[q0.len() as int].0 == next);
                        assert forall|c: Point| #[trigger] visited.has(c) && c != start implies first.at(c) is Some by {
                            v0.lemma_has_on_board(c);
                            if c != next {
                                assert(v0.has(c));
                            }
                        }
                    }
                }
                proof {
                    assert forall|c: Point| #[trigger] in_queue(qa, c) implies in_queue(queue@, c) by {
                        let k = choose|k: int| 0 <= k < qa.len() && #[trigger] qa[k].0 == c;
                        assert(queue@[k] == qa[k]);
                    }
                    assert forall|c: Point| #[trigger] visited.has(c) && c != current && !in_queue(queue@, c) implies self.closed_at(
                        visited,
                        c,
                        now,
                    ) by {
                        if v0.has(c) {
                            assert(!in_queue(qa, c));
                            lemma_closed_grow(self, v0, visited, c, now);
                        } else {
                            assert(c == next);
                            assert(queue@[qa.len() as int].0 == next);
                        }
                    }
                    if self.always_passable(spec_step(current, dir_at(e as int)), now) {
                        assert(self.safe_at(next, (dist + 1) as u16, 3, now));
                    }
                    if target != start && visited.has(target) && !v0.has(target) {
                        assert(queue@[qa.len() as int].0 == target);
                    }
                }
                e = e + 1;
            }
            proof {
                assert forall|c: Point| #[trigger] visited.has(c) && !in_queue(queue@, c) implies self.closed_at(visited, c, now) by {
                    if c == current {
                        assert forall|j: int| 0 <= j < 4 && #[trigger] self.always_passable(spec_step(c, dir_at(j)), now) implies visited.has(
                            spec_step(c, dir_at(j)),
                        ) by {}
                    }
                }
            }
            proof {
                visited.lemma_size_bound();
            }
        }
        proof {
            if hyp {
                let ds = choose|ds: Seq<Direction>| #[trigger] self.stable_walk(start, ds, now) && walk(start, ds) == target;
                assert forall|c: Point| visited.has(c) implies #[trigger] self.closed_at(visited, c, now) by {
                    assert(!in_queue(queue@, c));
                }
                lemma_stable_reach(self, visited, start, ds, now);
                assert(in_queue(queue@, target));
            }
        }
        None
    }
}

/// The length of the walk `paths` holds for `c`, or zero for `start`.
pub open spec fn bfs_dist(paths: Map<Point, Seq<Direction>>, start: Point, c: Point) -> int {
    if c == start {
        0
    } else {
        paths[c].len() as int
    }
}

/// When every cell of `vis` nearer than `lvl` to `start` is closed (see
/// `closed_at` and `closed_dist`), every stable walk shorter than `lvl`
/// ends on a cell of `vis` no further than the walk is long.
proof fn lemma_bfs_short(
    g: &Game,
    vis: PointSet,
    paths: Map<Point, Seq<Direction>>,
    start: Point,
    ws: Seq<Direction>,
    lvl: int,
    now: u64,
)
    requires
        vis.has(start),
        forall|c: Point| #[trigger] vis.has(c) && bfs_dist(paths, start, c) < lvl ==> g.closed_at(vis, c, now) && g.closed_dist(paths, start, c, now),
        g.stable_walk(start, ws, now),
        ws.len() < lvl,
    ensures
        vis.has(walk(start, ws)),
        bfs_dist(paths, start, walk(start, ws)) <= ws.len(),
    decreases ws.len(),
{
    if ws.len() > 0 {
        let p = ws.drop_last();
        assert forall|i: int| 1 <= i <= p.len() implies #[trigger] g.always_passable(walk(start, p.take(i)), now) by {
            assert(p.take(i) =~= ws.take(i));
            assert(g.always_passable(walk(start, ws.take(i)), now));
        }
        lemma_bfs_short(g, vis, paths, start, p, lvl, now);
        let c = walk(start, p);
        let d = ws.last();
        let j = dir_index(d);
        assert(dir_at(j) == d);
        assert(ws.take(ws.len() as int) =~= ws);
        assert(g.always_passable(walk(start, ws.take(ws.len() as int)), now));
        assert(g.closed_at(vis, c, now) && g.closed_dist(paths, start, c, now));
        assert(g.always_passable(spec_step(c, dir_at(j)), now));
    }
}

/// Whether some entry of the queue `q` is at `c`.
pub open spec fn in_queue(q: Seq<(Point, u16)>, c: Point) -> bool {
    exists|k: int| 0 <= k < q.len() && #[trigger] q[k].0 == c
}

/// Closedness lasts as the set grows.
proof fn lemma_closed_grow(g: &Game, v0: PointSet, v1: PointSet, c: Point, now: u64)
    requires
        g.closed_at(v0, c, now),
        forall|p: Point| v0.has(p) ==> #[trigger] v1.has(p),
    ensures
        g.closed_at(v1, c, now),
{
}

/// A set that holds `start` and every always-passable neighbour of its
/// cells holds the end of every stable walk from `start`.
proof fn lemma_stable_reach(g: &Game, vis: PointSet, start: Point, ds: Seq<Direction>, now: u64)
    requires
        vis.has(start),
        forall|c: Point| vis.has(c) ==> #[trigger] g.closed_at(vis, c, now),
        g.stable_walk(start, ds, now),
    ensures
        vis.has(walk(start, ds)),
    decreases ds.len(),
{
    if ds.len() > 0 {
        let p = ds.drop_last();
        assert forall|i: int| 1 <= i <= p.len() implies #[trigger] g.always_passable(walk(start, p.take(i)), now) by {
            assert(p.take(i) =~= ds.take(i));
            assert(g.always_passable(walk(start, ds.take(i)), now));
        }
        lemma_stable_reach(g, vis, start, p, now);
        let c = walk(start, p);
        let d = ds.last();
        let j = dir_index(d);
        assert(dir_at(j) == d);
        assert(ds.take(ds.len() as int) =~= ds);
        assert(g.always_passable(walk(start, ds.take(ds.len() as int)), now));
        assert(g.closed_at(vis, c, now));
        assert(g.always_passable(spec_step(c, dir_at(j)), now));
    }
}

/// Extending a valid walk by a step onto a passable cell gives a valid walk.
proof fn lemma_extend_walk(g: &Game, start: Point, ds: Seq<Direction>, dir: Direction, now: u64)
    requires
        g.valid_walk(start, ds, now),
        g.passable(spec_step(walk(start, ds), dir), ds.len() + 1int, now),
    ensures
        walk(start, ds.push(dir)) == spec_step(walk(start, ds), dir),
        g.valid_walk(start, ds.push(dir), now),
{
    let e = ds.push(dir);
    assert(e.drop_last() =~= ds);
    assert forall|i: int| 1 <= i <= e.len() implies #[trigger] g.passable(walk(start, e.take(i)), i, now) by {
        if i <= ds.len() {
            assert(e.take(i) =~= ds.take(i));
        } else {
            assert(e.take(i) =~= e);
        }
    }
}

/// `a` or `b`, whichever is smaller.
pub open spec fn min_int(a: int, b: int) -> int {
    if a <= b { a } else { b }
}

/// `a + b`, capped at `u16::MAX`.
pub open spec fn sat_add16(a: int, b: int) -> int {
    min_int(a + b, u16::MAX as int)
}

/// An entry of the search frontier: estimated total cost and cell.
#[derive(Clone, Copy, Debug, PartialEq, Eq, Structural)]
pub struct AStarState {
    pub f_score: u16,
    pub position: Point,
}

/// Whether the frontier entry `a` is taken before `b`: lower estimated
/// cost first, then the lower column, then the lower row.
pub open spec fn comes_first(a: AStarState, b: AStarState) -> bool {
    a.f_score < b.f_score || (a.f_score == b.f_score && (a.position.x < b.position.x || (a.position.x == b.position.x
        && a.position.y <= b.position.y)))
}

impl AStarState {
    /// Whether `self` is taken from the frontier before `other`; see `comes_first`.
    pub fn comes_before(&self, other: &AStarState) -> (r: bool)
        ensures
            r == comes_first(*self, *other),
    {
        self.f_score < other.f_score || (self.f_score == other.f_score && (self.position.x < other.position.x || (
        self.position.x == other.position.x && self.position.y <= other.position.y)))
    }
}

impl Game {
    /// The distance the search estimates between `a` and `b`: the
    /// Manhattan distance, each axis taken the short way round when the
    /// snake wraps, capped at `u16::MAX`.
    pub open spec fn estimate(&self, a: Point, b: Point, wraps: bool) -> int {
        let dx = abs_diff(a.x as int, b.x as int);
        let dy = abs_diff(a.y as int, b.y as int);
        let dx2 = if wraps { min_int(dx, crate::game::sat_sub(crate::game::sat_sub(self.width as int, 2), dx)) } else { dx };
        let dy2 = if wraps { min_int(dy, crate::game::sat_sub(crate::game::sat_sub(self.height as int, 2), dy)) } else { dy };
        sat_add16(dx2, dy2)
    }

    /// The estimate from `p` to `t`, going through a portal when that is shorter.
    pub open spec fn estimate_via_portals(&self, p: Point, t: Point, wraps: bool) -> int {
        let direct = self.estimate(p, t, wraps);
        match self.portals {
            Some((a, b)) => min_int(
                direct,
                min_int(
                    sat_add16(self.estimate(p, a, wraps), self.estimate(b, t, wraps)),
                    sat_add16(self.estimate(p, b, wraps), self.estimate(a, t, wraps)),
                ),
            ),
            None => direct,
        }
    }

    /// The smallest estimate from `p` to any of `targets` (0 for none).
    pub open spec fn heuristic(&self, p: Point, targets: Seq<Point>, wraps: bool) -> int
        decreases targets.len(),
    {
        if targets.len() == 0 {
            0
        } else if targets.len() == 1 {
            self.estimate_via_portals(p, targets[0], wraps)
        } else {
            min_int(self.heuristic(p, targets.drop_last(), wraps), self.estimate_via_portals(p, targets.last(), wraps))
        }
    }

    fn estimate_exec(&self, a: Point, b: Point, wraps: bool) -> (r: u16)
        ensures
            r == self.estimate(a, b, wraps),
            r <= abs_diff(a.x as int, b.x as int) + abs_diff(a.y as int, b.y as int),
    {
        let mut dx: u16 = if a.x >= b.x { a.x - b.x } else { b.x - a.x };
        let mut dy: u16 = if a.y >= b.y { a.y - b.y } else { b.y - a.y };
        if wraps {
            let wx = self.width.saturating_sub(2).saturating_sub(dx);
            if wx < dx {
                dx = wx;
            }
            let wy = self.height.saturating_sub(2).saturating_sub(dy);
            if wy < dy {
                dy = wy;
            }
        }
        dx.saturating_add(dy)
    }

    fn estimate_via_portals_exec(&self, p: Point, t: Point, wraps: bool) -> (r: u16)
        ensures
            r == self.estimate_via_portals(p, t, wraps),
            r <= abs_diff(p.x as int, t.x as int) + abs_diff(p.y as int, t.y as int),
    {
        let direct = self.estimate_exec(p, t, wraps);
        match self.portals {
            Some((a, b)) => {
                let v1 = self.estimate_exec(p, a, wraps).saturating_add(self.estimate_exec(b, t, wraps));
                let v2 = self.estimate_exec(p, b, wraps).saturating_add(self.estimate_exec(a, t, wraps));
                let m = if v1 <= v2 { v1 } else { v2 };
                if direct <= m { direct } else { m }
            },
            None => direct,
        }
    }

    /// The search's estimate from `p` to the nearest of `targets`; see `heuristic`.
    fn heuristic_exec(&self, p: Point, targets: &Vec<Point>, wraps: bool) -> (r: u16)
        requires
            targets@.len() > 0,
        ensures
            r == self.heuristic(p, targets@, wraps),
            r <= abs_diff(p.x as int, targets@[0].x as int) + abs_diff(p.y as int, targets@[0].y as int),
    {
        let mut best = self.estimate_via_portals_exec(p, targets[0], wraps);
        let mut i: usize = 1;
        proof {
            assert(targets@.take(1).len() == 1);
        }
        while i < targets.len()
            invariant
                1 <= i <= targets@.len(),
                best == self.heuristic(p, targets@.take(i as int), wraps),
                best <= abs_diff(p.x as int, targets@[0].x as int) + abs_diff(p.y as int, targets@[0].y as int),
            decreases targets@.len() - i,
        {
            let e = self.estimate_via_portals_exec(p, targets[i], wraps);
            proof {
                assert(targets@.take(i as int + 1).drop_last() =~= targets@.take(i as int));
            }
            if e < best {
                best = e;
            }
            i = i + 1;
        }
        assert(targets@.take(i as int) =~= targets@);
        best
    }
}

/// Whether some entry of the frontier `open` lies on one of `targets`.
pub open spec fn frontier_reaches(open: Seq<AStarState>, targets: Seq<Point>) -> bool {
    exists|k: int| 0 <= k < open.len() && #[trigger] targets.contains(open[k].position)
}

/// Whether some entry of the frontier `open` is at `c`.
pub open spec fn in_open(open: Seq<AStarState>, c: Point) -> bool {
    exists|k: int| 0 <= k < open.len() && #[trigger] open[k].position == c
}

/// A frontier entry on a target stays when another entry is pushed.
proof fn lemma_reaches_push(open: Seq<AStarState>, x: AStarState, targets: Seq<Point>)
    requires
        frontier_reaches(open, targets),
    ensures
        frontier_reaches(open.push(x), targets),
{
    let k = choose|k: int| 0 <= k < open.len() && #[trigger] targets.contains(open[k].position);
    assert(open.push(x)[k] == open[k]);
}

/// A frontier entry on a target stays when an entry off the targets leaves.
proof fn lemma_reaches_remove(open: Seq<AStarState>, b: int, targets: Seq<Point>)
    requires
        0 <= b < open.len(),
        frontier_reaches(open, targets),
        !targets.contains(open[b].position),
    ensures
        frontier_reaches(open.remove(b), targets),
{
    let k = choose|k: int| 0 <= k < open.len() && #[trigger] targets.contains(open[k].position);
    if k < b {
        assert(open.remove(b)[k] == open[k]);
    } else {
        assert(open.remove(b)[k - 1] == open[k]);
    }
}

/// The index of the frontier entry taken next; see `comes_first`.
fn best_index(open: &Vec<AStarState>) -> (r: usize)
    requires
        open@.len() > 0,
    ensures
        r < open@.len(),
        forall|j: int| 0 <= j < open@.len() ==> comes_first(open@[r as int], #[trigger] open@[j]),
{
    let mut best: usize = 0;
    let mut i: usize = 1;
    while i < open.len()
        invariant
            1 <= i <= open@.len(),
            best < i,
            forall|j: int| 0 <= j < i ==> comes_first(open@[best as int], #[trigger] open@[j]),
        decreases open@.len() - i,
    {
        if !open[best].comes_before(&open[i]) {
            best = i;
        }
        i = i + 1;
    }
    best
}

impl Game {
    /// Whether `b` is one move from `a` at `now`.
    pub open spec fn one_move(&self, a: Point, b: Point, now: u64) -> bool {
        exists|i: int| 0 <= i < 4 && #[trigger] self.final_p(spec_step(a, dir_at(i)), now) == Some(b)
    }

    /// Whether `path` is a route at `now` from `start` to one of `targets`:
    /// it starts one move from `start`, goes one move at a time, and ends
    /// on a target.
    pub open spec fn route_ok(&self, start: Point, path: Seq<Point>, targets: Seq<Point>, now: u64) -> bool {
        &&& path.len() >= 1
        &&& targets.contains(path.last())
        &&& self.one_move(start, path[0], now)
        &&& forall|i: int| 0 <= i < path.len() - 1 ==> self.one_move(path[i], #[trigger] path[i + 1], now)
    }

    /// Whether `player` is safe on `p` at `now` however many moves it took
    /// to get there.
    pub open spec fn always_safe(&self, p: Point, player: u8, now: u64) -> bool {
        forall|k: u16| k >= 1 ==> #[trigger] self.safe_at(p, k, player, now)
    }

    /// Whether `path` is a route at `now` from `start` to a target other
    /// than `start` (see `route_ok`) over cells where `player` is always
    /// safe (see `always_safe`).
    pub open spec fn safe_route(&self, start: Point, path: Seq<Point>, targets: Seq<Point>, player: u8, now: u64) -> bool {
        &&& self.route_ok(start, path, targets, now)
        &&& path.last() != start
        &&& forall|i: int| 0 <= i < path.len() ==> #[trigger] self.always_safe(path[i], player, now)
    }

    /// Whether every cell one move from `c` at `now` where `player` is
    /// always safe has a finite cost in `g`.
    pub open spec fn astar_closed(&self, g: Grid<u16>, c: Point, player: u8, now: u64) -> bool {
        self.astar_closed_upto(g, c, player, now, 4)
    }

    /// `astar_closed` for the first `n` headings.
    pub open spec fn astar_closed_upto(&self, g: Grid<u16>, c: Point, player: u8, now: u64, n: int) -> bool {
        forall|j: int|
            0 <= j < n && (#[trigger] self.final_p(spec_step(c, dir_at(j)), now) matches Some(q) && self.always_safe(q, player, now))
                ==> g.at(self.final_p(spec_step(c, dir_at(j)), now)->0) < u16::MAX
    }

    /// What the search keeps of its cost grid `g`, its set `seen` of cells
    /// with a finite cost, and its frontier `open`: `seen` holds `start`,
    /// no cost is above the number of cells seen, every frontier entry is
    /// seen, every seen cell off the frontier (other than `busy`, the one in
    /// hand) has all its always-safe neighbours seen, and a seen target
    /// other than `start` is on the frontier.
    #[verifier::opaque]
    pub open spec fn astar_inv(
        &self,
        g: Grid<u16>,
        seen: PointSet,
        open: Seq<AStarState>,
        start: Point,
        targets: Seq<Point>,
        player: u8,
        now: u64,
        busy: Option<Point>,
    ) -> bool {
        &&& seen.wf() && seen.w() == self.width && seen.h() == self.height
        &&& seen.has(start)
        &&& seen.size() >= 1
        &&& forall|c: Point|
            #![trigger seen.has(c)]
            #![trigger g.at(c)]
            on_board(c, self.width, self.height) ==> (seen.has(c) <==> g.at(c) < u16::MAX)
        &&& forall|c: Point| #[trigger] seen.has(c) ==> g.at(c) <= seen.size()
        &&& forall|k: int| 0 <= k < open.len() ==> seen.has(#[trigger] open[k].position)
        &&& forall|c: Point| #[trigger] seen.has(c) && !in_open(open, c) && busy != Some(c) ==> self.astar_closed(g, c, player, now)
        &&& forall|c: Point| #[trigger] seen.has(c) && targets.contains(c) && c != start ==> in_open(open, c)
    }

    /// A cell stays closed as more costs become finite.
    proof fn lemma_astar_closed_grow(&self, g0: Grid<u16>, g1: Grid<u16>, c: Point, player: u8, now: u64, n: int)
        requires
            self.wf(),
            self.astar_closed_upto(g0, c, player, now, n),
            forall|q: Point| on_board(q, self.width, self.height) && g0.at(q) < u16::MAX ==> #[trigger] g1.at(q) < u16::MAX,
        ensures
            self.astar_closed_upto(g1, c, player, now, n),
    {
        assert forall|j: int|
            0 <= j < n && (#[trigger] self.final_p(spec_step(c, dir_at(j)), now) matches Some(q) && self.always_safe(q, player, now))
                implies g1.at(self.final_p(spec_step(c, dir_at(j)), now)->0) < u16::MAX by {
            self.lemma_final_on_board(spec_step(c, dir_at(j)), now);
        }
    }

    /// Giving `fp` the finite cost `g1.at(fp)`, adding it to `seen` and
    /// pushing it onto the frontier keeps `astar_inv`.
    proof fn lemma_astar_relax(
        &self,
        g0: Grid<u16>,
        s0: PointSet,
        o0: Seq<AStarState>,
        g1: Grid<u16>,
        s1: PointSet,
        o1: Seq<AStarState>,
        fp: Point,
        start: Point,
        targets: Seq<Point>,
        player: u8,
        now: u64,
        busy: Option<Point>,
    )
        requires
            self.wf(),
            self.astar_inv(g0, s0, o0, start, targets, player, now, busy),
            on_board(fp, self.width, self.height),
            g1.at(fp) < u16::MAX,
            g1.at(fp) <= s1.size(),
            forall|q: Point| q != fp && on_board(q, self.width, self.height) ==> #[trigger] g1.at(q) == g0.at(q),
            s1.wf() && s1.w() == self.width && s1.h() == self.height,
            s1.has(fp),
            forall|q: Point| q != fp ==> #[trigger] s1.has(q) == s0.has(q),
            s1.size() >= s0.size(),
            o1.len() == o0.len() + 1,
            o1[o0.len() as int].position == fp,
            forall|k: int| 0 <= k < o0.len() ==> #[trigger] o1[k] == o0[k],
        ensures
            self.astar_inv(g1, s1, o1, start, targets, player, now, busy),
            forall|c: Point, n: int| #[trigger] self.astar_closed_upto(g0, c, player, now, n) ==> self.astar_closed_upto(g1, c, player, now, n),
    {
        reveal(Game::astar_inv);
        assert forall|c: Point| on_board(c, self.width, self.height) && g0.at(c) < u16::MAX implies #[trigger] g1.at(c) < u16::MAX by {
        }
        assert forall|c: Point, n: int| #[trigger] self.astar_closed_upto(g0, c, player, now, n) implies self.astar_closed_upto(
            g1,
            c,
            player,
            now,
            n,
        ) by {
            self.lemma_astar_closed_grow(g0, g1, c, player, now, n);
        }
        assert forall|c: Point| #[trigger] in_open(o0, c) implies in_open(o1, c) by {
            let k = choose|k: int| 0 <= k < o0.len() && #[trigger] o0[k].position == c;
            assert(o1[k] == o0[k]);
        }
        assert(in_open(o1, fp)) by {
            assert(o1[o0.len() as int].position == fp);
        }
        assert forall|c: Point|
            #![trigger s1.has(c)]
            #![trigger g1.at(c)]
            on_board(c, self.width, self.height) implies (s1.has(c) <==> g1.at(c) < u16::MAX) by {
            if c != fp {
                assert(s0.has(c) <==> g0.at(c) < u16::MAX);
            }
        }
        assert forall|c: Point| #[trigger] s1.has(c) implies g1.at(c) <= s1.size() by {
            if c != fp {
                s0.lemma_has_on_board(c);
                assert(g0.at(c) <= s0.size());
            }
        }
        assert forall|k: int| 0 <= k < o1.len() implies s1.has(#[trigger] o1[k].position) by {
            if k < o0.len() {
                assert(o1[k] == o0[k]);
                assert(s0.has(o0[k].position));
            }
        }
        assert forall|c: Point| #[trigger] s1.has(c) && !in_open(o1, c) && busy != Some(c) implies self.astar_closed(
            g1,
            c,
            player,
            now,
        ) by {
            assert(c != fp);
            assert(s0.has(c));
            assert(!in_open(o0, c));
            self.lemma_astar_closed_grow(g0, g1, c, player, now, 4);
        }
        assert forall|c: Point| #[trigger] s1.has(c) && targets.contains(c) && c != start implies in_open(o1, c) by {
            if c != fp {
                assert(s0.has(c));
                assert(in_open(o0, c));
            }
        }
    }

    /// The cell in hand, once closed, need not be set aside any more.
    proof fn lemma_astar_settle(
        &self,
        g: Grid<u16>,
        seen: PointSet,
        open: Seq<AStarState>,
        start: Point,
        targets: Seq<Point>,
        player: u8,
        now: u64,
        c: Point,
    )
        requires
            self.astar_inv(g, seen, open, start, targets, player, now, Some(c)),
            self.astar_closed_upto(g, c, player, now, 4),
        ensures
            self.astar_inv(g, seen, open, start, targets, player, now, None),
    {
        reveal(Game::astar_inv);
    }

    /// Taking the entry `b` off the frontier puts its cell in hand, when it
    /// is no target.
    proof fn lemma_astar_pop(
        &self,
        g: Grid<u16>,
        seen: PointSet,
        ob: Seq<AStarState>,
        open: Seq<AStarState>,
        b: int,
        start: Point,
        targets: Seq<Point>,
        player: u8,
        now: u64,
    )
        requires
            self.astar_inv(g, seen, ob, start, targets, player, now, None),
            0 <= b < ob.len(),
            open == ob.remove(b),
            !targets.contains(ob[b].position),
        ensures
            self.astar_inv(g, seen, open, start, targets, player, now, Some(ob[b].position)),
            seen.has(ob[b].position),
            g.at(ob[b].position) <= seen.size(),
    {
        reveal(Game::astar_inv);
        let current = ob[b].position;
        assert forall|c: Point| #[trigger] in_open(ob, c) && c != current implies in_open(open, c) by {
            let k = choose|k: int| 0 <= k < ob.len() && #[trigger] ob[k].position == c;
            if k < b {
                assert(open[k] == ob[k]);
            } else {
                assert(k != b);
                assert(open[k - 1] == ob[k]);
            }
        }
        assert forall|k: int| 0 <= k < open.len() implies seen.has(#[trigger] open[k].position) by {
            if k < b {
                assert(open[k] == ob[k]);
            } else {
                assert(open[k] == ob[k + 1]);
            }
        }
        assert forall|c: Point| #[trigger] seen.has(c) && !in_open(open, c) && Some(current) != Some(c) implies self.astar_closed(
            g,
            c,
            player,
            now,
        ) by {
            assert(!in_open(ob, c));
        }
    }

    /// A cell one move from a cell whose cost is at most the number of
    /// cells seen can get a finite cost of one more, unless it has one.
    proof fn lemma_astar_room(
        &self,
        g: Grid<u16>,
        seen: PointSet,
        open: Seq<AStarState>,
        start: Point,
        targets: Seq<Point>,
        player: u8,
        now: u64,
        busy: Option<Point>,
        fp: Point,
    )
        requires
            self.astar_inv(g, seen, open, start, targets, player, now, busy),
            on_board(fp, self.width, self.height),
            (self.width as int) * (self.height as int) < 65535,
        ensures
            g.at(fp) == u16::MAX ==> seen.size() + 1 < u16::MAX && !seen.has(fp),
            g.at(fp) < u16::MAX ==> seen.has(fp) && g.at(fp) <= seen.size(),
            seen.size() < u16::MAX,
    {
        reveal(Game::astar_inv);
        seen.lemma_size_bound();
        if g.at(fp) == u16::MAX {
            seen.lemma_size_strict(fp);
        }
    }

    /// With nothing left on the frontier, no safe route to a target exists.
    proof fn lemma_astar_exhausted(
        &self,
        g: Grid<u16>,
        seen: PointSet,
        start: Point,
        targets: Seq<Point>,
        player: u8,
        now: u64,
        path: Seq<Point>,
    )
        requires
            self.wf(),
            self.astar_inv(g, seen, Seq::empty(), start, targets, player, now, None),
        ensures
            !self.safe_route(start, path, targets, player, now),
    {
        reveal(Game::astar_inv);
        if self.safe_route(start, path, targets, player, now) {
            assert forall|c: Point| #[trigger] seen.has(c) implies self.astar_closed(g, c, player, now) by {
                assert(!in_open(Seq::<AStarState>::empty(), c));
            }
            self.lemma_route_seen(g, seen, start, path, targets, player, now, path.len() - 1);
            assert(in_open(Seq::<AStarState>::empty(), path.last()));
        }
    }

    /// Every cell of a safe route is seen when every seen cell is closed.
    proof fn lemma_route_seen(
        &self,
        g: Grid<u16>,
        seen: PointSet,
        start: Point,
        path: Seq<Point>,
        targets: Seq<Point>,
        player: u8,
        now: u64,
        i: int,
    )
        requires
            self.wf(),
            seen.wf() && seen.w() == self.width && seen.h() == self.height,
            seen.has(start),
            forall|c: Point|
                #![trigger seen.has(c)]
                #![trigger g.at(c)]
                on_board(c, self.width, self.height) ==> (seen.has(c) <==> g.at(c) < u16::MAX),
            forall|c: Point| #[trigger] seen.has(c) ==> self.astar_closed(g, c, player, now),
            self.safe_route(start, path, targets, player, now),
            0 <= i < path.len(),
        ensures
            seen.has(path[i]),
        decreases i,
    {
        let prev = if i == 0 { start } else { path[i - 1] };
        if i > 0 {
            self.lemma_route_seen(g, seen, start, path, targets, player, now, i - 1);
            let k = i - 1;
            assert(self.one_move(path[k], path[k + 1], now));
        }
        assert(self.one_move(prev, path[i], now));
        let j = choose|j: int| 0 <= j < 4 && #[trigger] self.final_p(spec_step(prev, dir_at(j)), now) == Some(path[i]);
        assert(self.astar_closed(g, prev, player, now));
        assert(self.always_safe(path[i], player, now));
        self.lemma_final_on_board(spec_step(prev, dir_at(j)), now);
        assert(g.at(path[i]) < u16::MAX);
    }

    /// Whether the move of `player` from `start` in direction `i` (see
    /// `dir_at`) is safe at `now` and lands on one of `targets`.
    pub open spec fn target_next_to(&self, start: Point, targets: Seq<Point>, i: int, player: u8, now: u64) -> bool {
        &&& self.safe_first(start, i, player, now)
        &&& targets.contains(self.final_p(spec_step(start, dir_at(i)), now)->0)
    }

    /// An A* search for `player` from `start` to the nearest of `targets` at
    /// `now`, moving through portals and around the board as the snake does
    /// and only onto cells where it is safe when it gets there. The answer is
    /// the first move and the cells of the route after `start`: the first
    /// move is safe, the route ends on a target, starts one move from
    /// `start`, and goes one move at a time. A route is always found when a
    /// target lies one safe move away, and whenever a route to a target
    /// exists over cells where `player` is safe however many moves it takes
    /// to reach them (see `safe_route`).
    #[verifier::rlimit(100)]
    #[verifier::spinoff_prover]
    pub fn astar_search_at(&self, start: Point, targets: &Vec<Point>, checking_player: u8, now: u64) -> (r: Option<(Direction, Vec<Point>)>)
        requires
            self.wf(),
            on_board(start, self.width, self.height),
            targets@.len() > 0,
            forall|i: int| 0 <= i < targets@.len() ==> on_board(#[trigger] targets@[i], self.width, self.height),
            (self.width as int) * (self.height as int) < 65535,
        ensures
            r matches Some((d, path)) ==> self.safe_first(start, dir_index(d), checking_player, now) && path@.len() >= 1
                && targets@.contains(path@.last()) && self.one_move(start, path@[0], now) && forall|i: int|
                0 <= i < path@.len() - 1 ==> self.one_move(path@[i], #[trigger] path@[i + 1], now),
            (exists|i: int| 0 <= i < 4 && #[trigger] self.target_next_to(start, targets@, i, checking_player, now)) ==> r is Some,
            (exists|path: Seq<Point>| #[trigger] self.safe_route(start, path, targets@, checking_player, now)) ==> r is Some,
    {
        let ghost hyp = exists|i: int| 0 <= i < 4 && #[trigger] self.target_next_to(start, targets@, i, checking_player, now);
        let wraps = self.wraps_at(now);
        assert(self.width + self.height < 65534) by (nonlinear_arith)
            requires
                self.width >= 3,
                self.height >= 5,
                (self.width as int) * (self.height as int) < 65535,
        ;
        assert(on_board(targets@[0], self.width, self.height));
        let mut g: Grid<u16> = Grid::new(self.width, self.height, u16::MAX);
        let mut first: Grid<Option<Direction>> = Grid::new(self.width, self.height, None);
        let mut came: Grid<Option<Point>> = Grid::new(self.width, self.height, None);
        let mut open: Vec<AStarState> = Vec::new();
        g.set(start, 0);
        let mut seen = PointSet::new(self.width, self.height);
        seen.insert(start);
        proof {
            assert forall|c: Point| on_board(c, self.width, self.height) implies (#[trigger] seen.has(c) <==> g.at(c) < u16::MAX) by {
                if c != start {
                    assert(!seen.has(c));
                }
            }
            assert forall|c: Point| #[trigger] seen.has(c) implies g.at(c) <= seen.size() by {
                if c != start {
                    assert(!seen.has(c));
                }
            }
            assert forall|c: Point| #[trigger] seen.has(c) && !in_open(open@, c) && Some(start) != Some(c) implies self.astar_closed(
                g,
                c,
                checking_player,
                now,
            ) by {
                assert(c == start);
            }
            assert(self.astar_inv(g, seen, open@, start, targets@, checking_player, now, Some(start))) by {
                reveal(Game::astar_inv);
            }
        }
        let mut d: usize = 0;
        while d < 4
            invariant
                self.wf(),
                d <= 4,
                on_board(start, self.width, self.height),
                targets@.len() > 0,
                on_board(targets@[0], self.width, self.height),
                self.width + self.height < 65534,
                (self.width as int) * (self.height as int) < 65535,
                g.wf() && g.width() == self.width && g.height() == self.height,
                first.wf() && first.width() == self.width && first.height() == self.height,
                came.wf() && came.width() == self.width && came.height() == self.height,
                seen.wf() && seen.w() == self.width && seen.h() == self.height,
                forall|k: int| 0 <= k < open@.len() ==> on_board((#[trigger] open@[k]).position, self.width, self.height)
                    && first.at(open@[k].position) is Some && came.at(open@[k].position) is Some,
                forall|c: Point| #[trigger] first.at(c) is Some && on_board(c, self.width, self.height) ==> self.safe_first(
                    start,
                    dir_index(first.at(c)->0),
                    checking_player,
                    now,
                ),
                forall|c: Point| #[trigger] came.at(c) is Some && on_board(c, self.width, self.height) ==> came.at(c)->0 == start
                    && self.one_move(start, c, now),
                (exists|i: int| 0 <= i < d && #[trigger] self.target_next_to(start, targets@, i, checking_player, now))
                    ==> frontier_reaches(open@, targets@),
                self.astar_inv(g, seen, open@, start, targets@, checking_player, now, Some(start)),
                seen.size() >= 1,
                forall|j: int|
                    0 <= j < d && (#[trigger] self.final_p(spec_step(start, dir_at(j)), now) matches Some(q) && self.always_safe(
                        q,
                        checking_player,
                        now,
                    )) ==> g.at(self.final_p(spec_step(start, dir_at(j)), now)->0) < u16::MAX,
            decreases 4 - d,
        {
            let dir = dir_of_index(d);
            let next = Self::calculate_next_head_dir(start, dir);
            proof {
                self.lemma_final_on_board(next, now);
                assert(dir_index(dir) == d);
            }
            match self.get_final_p_at(next, now) {
                Some(fp) => {
                    if self.is_safe_final_p_at(fp, 1, checking_player, now) {
                        let ghost g0 = g;
                        let ghost s0 = seen;
                        g.set(fp, 1);
                        seen.insert(fp);
                        first.set(fp, Some(dir));
                        came.set(fp, Some(start));
                        assert(self.one_move(start, fp, now)) by {
                            assert(self.final_p(spec_step(start, dir_at(d as int)), now) == Some(fp));
                        }
                        let hv = self.heuristic_exec(fp, targets, wraps);
                        let ghost o0 = open@;
                        open.push(AStarState { f_score: 1 + hv, position: fp });
                        proof {
                            assert forall|k: int| 0 <= k < open@.len() implies on_board((#[trigger] open@[k]).position, self.width, self.height)
                                && first.at(open@[k].position) is Some && came.at(open@[k].position) is Some by {
                                if k < o0.len() {
                                    assert(open@[k] == o0[k]);
                                }
                            }
                            if self.target_next_to(start, targets@, d as int, checking_player, now) {
                                assert(targets@.contains(open@[open@.len() - 1].position));
                            } else if frontier_reaches(o0, targets@) {
                                lemma_reaches_push(o0, open@.last(), targets@);
                                assert(open@ == o0.push(open@.last()));
                            }
                            assert(open@[o0.len() as int].position == fp);
                            assert forall|c: Point| #[trigger] in_open(o0, c) implies in_open(open@, c) by {
                                let k = choose|k: int| 0 <= k < o0.len() && #[trigger] o0[k].position == c;
                                assert(open@[k] == o0[k]);
                            }
                            assert(open@ == o0.push(open@[o0.len() as int]));
                            self.lemma_astar_relax(g0, s0, o0, g, seen, open@, fp, start, targets@, checking_player, now, Some(start));
                            assert forall|j: int|
                                0 <= j < d + 1 && (#[trigger] self.final_p(spec_step(start, dir_at(j)), now) matches Some(q) && self.always_safe(
                                    q,
                                    checking_player,
                                    now,
                                )) implies g.at(self.final_p(spec_step(start, dir_at(j)), now)->0) < u16::MAX by {
                                if j < d {
                                    self.lemma_final_on_board(spec_step(start, dir_at(j)), now);
                                    assert(g0.at(self.final_p(spec_step(start, dir_at(j)), now)->0) < u16::MAX);
                                }
                            }
                        }
                    }
                },
                None => {},
            }
            d = d + 1;
        }
        proof {
            assert forall|c: Point| #[trigger] came.at(c) is Some && on_board(c, self.width, self.height) && came.at(c)->0 != start
                implies false by {}
            assert(self.astar_closed_upto(g, start, checking_player, now, 4));
            self.lemma_astar_settle(g, seen, open@, start, targets@, checking_player, now, start);
        }
        while open.len() > 0
            invariant
                self.wf(),
                on_board(start, self.width, self.height),
                targets@.len() > 0,
                (self.width as int) * (self.height as int) < 65535,
                g.wf() && g.width() == self.width && g.height() == self.height,
                first.wf() && first.width() == self.width && first.height() == self.height,
                came.wf() && came.width() == self.width && came.height() == self.height,
                seen.wf() && seen.w() == self.width && seen.h() == self.height,
                forall|k: int| 0 <= k < open@.len() ==> on_board((#[trigger] open@[k]).position, self.width, self.height)
                    && first.at(open@[k].position) is Some && came.at(open@[k].position) is Some,
                forall|c: Point| #[trigger] first.at(c) is Some && on_board(c, self.width, self.height) ==> self.safe_first(
                    start,
                    dir_index(first.at(c)->0),
                    checking_player,
                    now,
                ),
                forall|c: Point| #[trigger] came.at(c) is Some && on_board(c, self.width, self.height) ==> on_board(
                    came.at(c)->0,
                    self.width,
                    self.height,
                ) && self.one_move(came.at(c)->0, c, now) && (came.at(c)->0 != start ==> came.at(came.at(c)->0) is Some
                    && g.at(came.at(c)->0) < g.at(c)),
                hyp ==> frontier_reaches(open@, targets@),
                self.astar_inv(g, seen, open@, start, targets@, checking_player, now, None),
            decreases 2 * g.total() + open@.len(),
        {
            proof {
                g.lemma_total_nonneg();
            }
            let b = best_index(&open);
            let ghost ob = open@;
            let st = open.remove(b);
            let current = st.position;
            proof {
                assert(on_board(current, self.width, self.height));
            }
            if vec_contains(targets, current) {
                return self.route_to(current, start, &came, &first, Ghost(checking_player), Ghost(now), Ghost(targets@));
            }
            proof {
                if hyp {
                    lemma_reaches_remove(ob, b as int, targets@);
                }
                self.lemma_astar_pop(g, seen, ob, open@, b as int, start, targets@, checking_player, now);
            }
            let current_g = g.get(current);
            let cf = first.get(current).unwrap();
            let ghost m0 = 2 * g.total() + open@.len() + 1;
            let mut e: usize = 0;
            while e < 4
                invariant
                    self.wf(),
                    e <= 4,
                    on_board(start, self.width, self.height),
                    on_board(current, self.width, self.height),
                    targets@.len() > 0,
                    (self.width as int) * (self.height as int) < 65535,
                    g.wf() && g.width() == self.width && g.height() == self.height,
                    first.wf() && first.width() == self.width && first.height() == self.height,
                    came.wf() && came.width() == self.width && came.height() == self.height,
                    seen.wf() && seen.w() == self.width && seen.h() == self.height,
                seen.wf() && seen.w() == self.width && seen.h() == self.height,
                    current == start || came.at(current) is Some,
                    g.at(current) <= current_g,
                    self.safe_first(start, dir_index(cf), checking_player, now),
                    forall|k: int| 0 <= k < open@.len() ==> on_board((#[trigger] open@[k]).position, self.width, self.height)
                        && first.at(open@[k].position) is Some && came.at(open@[k].position) is Some,
                    forall|c: Point| #[trigger] first.at(c) is Some && on_board(c, self.width, self.height) ==> self.safe_first(
                        start,
                        dir_index(first.at(c)->0),
                        checking_player,
                        now,
                    ),
                    forall|c: Point| #[trigger] came.at(c) is Some && on_board(c, self.width, self.height) ==> on_board(
                        came.at(c)->0,
                        self.width,
                        self.height,
                    ) && self.one_move(came.at(c)->0, c, now) && (came.at(c)->0 != start ==> came.at(came.at(c)->0) is Some
                        && g.at(came.at(c)->0) < g.at(c)),
                    2 * g.total() + open@.len() < m0,
                    hyp ==> frontier_reaches(open@, targets@),
                    self.astar_inv(g, seen, open@, start, targets@, checking_player, now, Some(current)),
                    current_g <= seen.size(),
                    self.astar_closed_upto(g, current, checking_player, now, e as int),
                decreases 4 - e,
            {
                let dir = dir_of_index(e);
                let next = Self::calculate_next_head_dir(current, dir);
                let tentative = current_g.saturating_add(1);
                proof {
                    self.lemma_final_on_board(next, now);
                }
                match self.get_final_p_at(next, now) {
                    Some(fp) => {
                        proof {
                            assert(self.final_p(spec_step(current, dir_at(e as int)), now) == Some(fp));
                            self.lemma_astar_room(g, seen, open@, start, targets@, checking_player, now, Some(current), fp);
                            assert(tentative == current_g + 1);
                        }
                        if self.is_safe_final_p_at(fp, tentative, checking_player, now) && tentative < g.get(fp) {
                            assert(self.one_move(current, fp, now)) by {
                                assert(self.final_p(spec_step(current, dir_at(e as int)), now) == Some(fp));
                            }
                            let ghost g0 = g;
                            let ghost s0 = seen;
                            came.set(fp, Some(current));
                            g.set_counted(fp, tentative);
                            seen.insert(fp);
                            first.set(fp, Some(cf));
                            let hv = self.heuristic_exec(fp, targets, wraps);
                            let ghost o0 = open@;
                            open.push(AStarState { f_score: tentative.saturating_add(hv), position: fp });
                            proof {
                                assert forall|k: int| 0 <= k < open@.len() implies on_board((#[trigger] open@[k]).position, self.width, self.height)
                                    && first.at(open@[k].position) is Some && came.at(open@[k].position) is Some by {
                                    if k < o0.len() {
                                        assert(open@[k] == o0[k]);
                                    }
                                }
                                g.lemma_total_nonneg();
                                if hyp {
                                    lemma_reaches_push(o0, open@.last(), targets@);
                                    assert(open@ == o0.push(open@.last()));
                                }
                                assert(open@[o0.len() as int].position == fp);
                                assert forall|k: int| 0 <= k < o0.len() implies #[trigger] open@[k] == o0[k] by {}
                                self.lemma_astar_relax(g0, s0, o0, g, seen, open@, fp, start, targets@, checking_player, now, Some(current));
                                assert(self.astar_closed_upto(g0, current, checking_player, now, e as int));
                                assert(self.astar_closed_upto(g, current, checking_player, now, e as int));
                            }
                        }
                        proof {
                            assert forall|j: int|
                                0 <= j < e + 1 && (#[trigger] self.final_p(spec_step(current, dir_at(j)), now) matches Some(q) && self.always_safe(
                                    q,
                                    checking_player,
                                    now,
                                )) implies g.at(self.final_p(spec_step(current, dir_at(j)), now)->0) < u16::MAX by {
                                if j == e {
                                    assert(self.safe_at(fp, tentative, checking_player, now));
                                }
                            }
                        }
                    },
                    None => {},
                }
                e = e + 1;
            }
            proof {
                g.lemma_total_nonneg();
                self.lemma_astar_settle(g, seen, open@, start, targets@, checking_player, now, current);
            }
        }
        proof {
            assert(open@ =~= Seq::<AStarState>::empty());
            if exists|path: Seq<Point>| #[trigger] self.safe_route(start, path, targets@, checking_player, now) {
                let path = choose|path: Seq<Point>| #[trigger] self.safe_route(start, path, targets@, checking_player, now);
                self.lemma_astar_exhausted(g, seen, start, targets@, checking_player, now, path);
            }
        }
        None
    }

    /// The route to `current` read back from `came` (each cell's
    /// predecessor), from the cell after `start` to `current`, with the
    /// first move recorded for `current`.
    fn route_to(
        &self,
        current: Point,
        start: Point,
        came: &Grid<Option<Point>>,
        first: &Grid<Option<Direction>>,
        checking_player: Ghost<u8>,
        now: Ghost<u64>,
        targets: Ghost<Seq<Point>>,
    ) -> (r: Option<(Direction, Vec<Point>)>)
        requires
            self.wf(),
            on_board(current, self.width, self.height),
            targets@.contains(current),
            came.wf() && came.width() == self.width && came.height() == self.height,
            first.wf() && first.width() == self.width && first.height() == self.height,
            came.at(current) is Some,
            first.at(current) is Some,
            forall|c: Point| #[trigger] first.at(c) is Some && on_board(c, self.width, self.height) ==> self.safe_first(
                start,
                dir_index(first.at(c)->0),
                checking_player@,
                now@,
            ),
            exists|gs: Grid<u16>| gs.width() == self.width && gs.height() == self.height && forall|c: Point| #[trigger] came.at(c) is Some && on_board(c, self.width, self.height) ==> on_board(
                came.at(c)->0,
                self.width,
                self.height,
            ) && self.one_move(came.at(c)->0, c, now@) && (came.at(c)->0 != start ==> came.at(came.at(c)->0) is Some
                && gs.at(came.at(c)->0) < gs.at(c)),
        ensures
            r matches Some((d, path)) ==> self.safe_first(start, dir_index(d), checking_player@, now@) && path@.len() >= 1
                && targets@.contains(path@.last()) && self.one_move(start, path@[0], now@) && forall|i: int|
                0 <= i < path@.len() - 1 ==> self.one_move(path@[i], #[trigger] path@[i + 1], now@),
            r matches Some((d, path)) && first.at(current) == Some(d) && path@.last() == current,
    {
        let ghost gs = choose|gs: Grid<u16>| gs.width() == self.width && gs.height() == self.height && forall|c: Point| #[trigger] came.at(c) is Some && on_board(c, self.width, self.height) ==> on_board(
                came.at(c)->0,
                self.width,
                self.height,
            ) && self.one_move(came.at(c)->0, c, now@) && (came.at(c)->0 != start ==> came.at(came.at(c)->0) is Some
                && gs.at(came.at(c)->0) < gs.at(c));
        let mut back: Vec<Point> = Vec::new();
        back.push(current);
        let mut curr = current;
        loop
            invariant
                self.wf(),
                on_board(curr, self.width, self.height),
                came.wf() && came.width() == self.width && came.height() == self.height,
                came.at(curr) is Some,
                back@.len() >= 1,
                back@[0] == current,
                back@.last() == curr,
                forall|i: int| 0 <= i < back@.len() - 1 ==> self.one_move(#[trigger] back@[i + 1], back@[i], now@),
                forall|c: Point| #[trigger] came.at(c) is Some && on_board(c, self.width, self.height) ==> on_board(
                    came.at(c)->0,
                    self.width,
                    self.height,
                ) && self.one_move(came.at(c)->0, c, now@) && (came.at(c)->0 != start ==> came.at(came.at(c)->0) is Some
                    && gs.at(came.at(c)->0) < gs.at(c)),
            ensures
                came.at(curr) == Some(start),
                back@.len() >= 1,
                back@[0] == current,
                back@.last() == curr,
                forall|i: int| 0 <= i < back@.len() - 1 ==> self.one_move(#[trigger] back@[i + 1], back@[i], now@),
            decreases gs.at(curr),
        {
            let prev = came.get(curr).unwrap();
            if prev == start {
                break;
            }
            let ghost b0 = back@;
            back.push(prev);
            proof {
                assert forall|i: int| 0 <= i < back@.len() - 1 implies self.one_move(#[trigger] back@[i + 1], back@[i], now@) by {
                    if i < b0.len() - 1 {
                        assert(back@[i + 1] == b0[i + 1]);
                        assert(back@[i] == b0[i]);
                    } else {
                        assert(back@[i] == curr);
                        assert(back@[i + 1] == prev);
                    }
                }
            }
            curr = prev;
        }
        let mut path: Vec<Point> = Vec::new();
        let mut k: usize = back.len();
        while k > 0
            invariant
                k <= back@.len(),
                path@.len() == back@.len() - k,
                forall|i: int| 0 <= i < path@.len() ==> path@[i] == back@[back@.len() - 1 - i],
            decreases k,
        {
            k = k - 1;
            path.push(back[k]);
        }
        proof {
            assert(path@[0] == curr);
            assert(self.one_move(start, curr, now@));
            assert(path@.last() == current);
            assert forall|i: int| 0 <= i < path@.len() - 1 implies self.one_move(path@[i], #[trigger] path@[i + 1], now@) by {
                let j = back@.len() - 2 - i;
                assert(path@[i] == back@[j + 1]);
                assert(path@[i + 1] == back@[j]);
            }
        }
        match first.get(current) {
            Some(dir) => Some((dir, path)),
            None => None,
        }
    }
}

impl Game {
    /// The cells the bot heads for: the food, the bonus food and a power-up
    /// lying on the board.
    pub open spec fn bot_targets(&self) -> Seq<Point> {
        let t1 = seq![self.food];
        let t2 = match self.bonus_food {
            Some((b, _)) => t1.push(b),
            None => t1,
        };
        match self.power_up {
            Some(pu) => if pu.activation_time is None { t2.push(pu.location) } else { t2 },
            None => t2,
        }
    }

    /// What the bot's move `r` for `player` from `head` means at `now`:
    /// `None` exactly when no move is safe, and otherwise a safe move.
    pub open spec fn move_ok(&self, head: Point, player: u8, r: Option<Direction>, now: u64) -> bool {
        &&& (r is None <==> forall|i: int| 0 <= i < 4 ==> !self.safe_first(head, i, player, now))
        &&& (r matches Some(d) ==> self.safe_first(head, dir_index(d), player, now))
    }

    /// What the boss's move `r` from `start` towards `target` means at `now`:
    /// a move starts a valid walk to the target no longer than any stable
    /// walk to it (see `stable_walk`), and there is one whenever a stable walk
    /// to it exists.
    pub open spec fn bfs_ok(&self, start: Point, target: Point, r: Option<Direction>, now: u64) -> bool {
        &&& (r matches Some(d) ==> exists|ds: Seq<Direction>|
            ds.len() >= 1 && ds[0] == d && walk(start, ds) == target && #[trigger] self.valid_walk(start, ds, now) && forall|
                ws: Seq<Direction>,
            | #[trigger] self.stable_walk(start, ws, now) && walk(start, ws) == target ==> ds.len() <= ws.len())
        &&& (target != start && (exists|ds: Seq<Direction>| #[trigger] self.stable_walk(start, ds, now) && walk(start, ds) == target)
            ==> r is Some)
    }

    fn bot_targets_vec(&self) -> (r: Vec<Point>)
        requires
            self.wf(),
        ensures
            r@ == self.bot_targets(),
            r@.len() > 0,
            forall|i: int| 0 <= i < r@.len() ==> on_board(#[trigger] r@[i], self.width, self.height),
    {
        let mut t: Vec<Point> = Vec::new();
        t.push(self.food);
        if let Some((b, _)) = self.bonus_food {
            t.push(b);
        }
        if let Some(pu) = &self.power_up {
            if pu.activation_time.is_none() {
                t.push(pu.location);
            }
        }
        t
    }

    /// The next move of the bot steering snake `player` (1 or 2) at `now`:
    /// the first move of an A* route to the nearest target (see
    /// `astar_search_at`), remembered as the bot's path, or else the safe move
    /// that leaves the most room (see `flood_fill_fallback_at`) with the path
    /// cleared. `None` exactly when no move is safe. A remembered path is a
    /// route to a target (see `route_ok`), and one is always found when a
    /// target lies one safe move away or a `safe_route` to a target exists.
    pub fn autopilot_move_at(&mut self, player: u8, now: u64) -> (r: Option<Direction>)
        requires
            old(self).wf(),
            player == 1 || player == 2,
            (old(self).width as int) * (old(self).height as int) < 65535,
        ensures
            final(self).wf(),
            final(self).snakes_same(*old(self)),
            final(self).board_same(*old(self)),
            final(self).progress_same(*old(self)),
            final(self).effects@ == old(self).effects@,
            player == 2 && old(self).player2 is None ==> r is None,
            player == 1 ==> old(self).move_ok(old(self).snake.cells()[0], 1, r, now),
            player == 2 && old(self).player2 is Some ==> old(self).move_ok(cells_of(old(self).player2)[0], 2, r, now),
            player == 1 && final(self).autopilot_path@.len() > 0 ==> r is Some && old(self).route_ok(
                old(self).snake.cells()[0],
                final(self).autopilot_path@,
                old(self).bot_targets(),
                now,
            ),
            player == 1 && (exists|i: int| 0 <= i < 4 && #[trigger] old(self).target_next_to(
                old(self).snake.cells()[0],
                old(self).bot_targets(),
                i,
                1,
                now,
            )) ==> final(self).autopilot_path@.len() > 0,
            player == 1 && (exists|path: Seq<Point>| #[trigger] old(self).safe_route(
                old(self).snake.cells()[0],
                path,
                old(self).bot_targets(),
                1,
                now,
            )) ==> final(self).autopilot_path@.len() > 0,
            player == 2 && old(self).player2 is Some && (exists|path: Seq<Point>| #[trigger] old(self).safe_route(
                cells_of(old(self).player2)[0],
                path,
                old(self).bot_targets(),
                2,
                now,
            )) ==> final(self).p2_autopilot_path@.len() > 0,
            player == 2 && old(self).player2 is Some && final(self).p2_autopilot_path@.len() > 0 ==> r is Some && old(self).route_ok(
                cells_of(old(self).player2)[0],
                final(self).p2_autopilot_path@,
                old(self).bot_targets(),
                now,
            ),
    {
        let start = if player == 1 {
            self.snake.head()
        } else {
            match &self.player2 {
                Some(p2) => p2.head(),
                None => {
                    return None;
                },
            }
        };
        let targets = self.bot_targets_vec();
        match self.astar_search_at(start, &targets, player, now) {
            Some((dir, path)) => {
                proof {
                    assert(self.safe_first(start, dir_index(dir), player, now));
                    assert(0 <= dir_index(dir) < 4);
                }
                if player == 1 {
                    self.autopilot_path = path;
                } else {
                    self.p2_autopilot_path = path;
                }
                Some(dir)
            },
            None => {
                let fallback = self.flood_fill_fallback_at(start, player, now);
                if player == 1 {
                    self.autopilot_path = Vec::new();
                } else {
                    self.p2_autopilot_path = Vec::new();
                }
                fallback
            },
        }
    }

    /// The bot's next move for the first snake, by the system clock: what
    /// `autopilot_move_at` gives for the time the clock reads.
    pub fn calculate_autopilot_move(&mut self) -> (r: Option<Direction>)
        requires
            old(self).wf(),
            (old(self).width as int) * (old(self).height as int) < 65535,
        ensures
            final(self).wf(),
            final(self).snakes_same(*old(self)),
            final(self).board_same(*old(self)),
            exists|now: u64| #[trigger] old(self).move_ok(old(self).snake.cells()[0], 1, r, now) && (final(self).autopilot_path@.len()
                > 0 ==> r is Some && old(self).route_ok(old(self).snake.cells()[0], final(self).autopilot_path@, old(self).bot_targets(), now))
                && ((exists|i: int| 0 <= i < 4 && #[trigger] old(self).target_next_to(
                old(self).snake.cells()[0],
                old(self).bot_targets(),
                i,
                1,
                now,
            )) ==> final(self).autopilot_path@.len() > 0) && ((exists|path: Seq<Point>| #[trigger] old(self).safe_route(
                old(self).snake.cells()[0],
                path,
                old(self).bot_targets(),
                1,
                now,
            )) ==> final(self).autopilot_path@.len() > 0),
    {
        let now = crate::clock::now_millis() / 1000;
        let r = self.autopilot_move_at(1, now);
        assert(old(self).move_ok(old(self).snake.cells()[0], 1, r, now));
        r
    }

    /// The bot's next move for the second snake, by the system clock; see
    /// `autopilot_move_at`.
    pub fn calculate_p2_autopilot_move(&mut self) -> (r: Option<Direction>)
        requires
            old(self).wf(),
            (old(self).width as int) * (old(self).height as int) < 65535,
        ensures
            final(self).wf(),
            final(self).snakes_same(*old(self)),
            final(self).board_same(*old(self)),
            old(self).player2 is None ==> r is None,
            old(self).player2 is Some ==> exists|now: u64| #[trigger] old(self).move_ok(cells_of(old(self).player2)[0], 2, r, now),
    {
        let now = crate::clock::now_millis() / 1000;
        let r = self.autopilot_move_at(2, now);
        assert(old(self).player2 is Some ==> old(self).move_ok(cells_of(old(self).player2)[0], 2, r, now));
        r
    }

    /// The boss's first move from `start` towards `target` now, by the
    /// system clock; see `bfs_pathfind_at`.
    pub fn bfs_pathfind(&self, start: Point, target: Point) -> (r: Option<Direction>)
        requires
            self.wf(),
            on_board(start, self.width, self.height),
            (self.width as int) * (self.height as int) < 65535,
        ensures
            target == start ==> r is None,
            exists|now: u64| #[trigger] self.bfs_ok(start, target, r, now),
    {
        let now = crate::clock::now_millis() / 1000;
        let r = self.bfs_pathfind_at(start, target, now);
        assert(self.bfs_ok(start, target, r, now));
        r
    }
}

} // verus!
