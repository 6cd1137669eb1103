use crate::game::{inside, on_board, Game, HistoryState};
use crate::kinds::{Boss, Difficulty, GameMode, GameState, Laser, PowerUp, Theme, Weather};
use crate::pointset::PointSet;
use crate::snake::{Point, Snake};
use std::collections::VecDeque;
use vstd::prelude::*;

verus! {

broadcast use vstd::std_specs::vecdeque::group_vec_dequeue_axioms;

/// A saved game. Times of the bonus food, the poison food and the last
/// food are kept as the whole seconds that had passed since them.
pub struct SaveState {
    pub mode: GameMode,
    pub snake: Snake,
    pub player2: Option<Snake>,
    pub food: Point,
    pub obstacles: Vec<Point>,
    pub score: u32,
    pub bonus_food: Option<(Point, u64)>,
    pub poison_food: Option<(Point, u64)>,
    pub power_up: Option<PowerUp>,
    pub lives: u32,
    pub difficulty: Difficulty,
    pub theme: Theme,
    pub wrap_mode: bool,
    pub skin: char,
    pub auto_pilot: bool,
    pub used_bot_this_session: bool,
    pub food_eaten_session: u32,
    pub campaign_level: u32,
    pub safe_zone_margin: u16,
    pub combo: u32,
    pub last_food_time: Option<u64>,
    pub lasers: Vec<Laser>,
    pub boss: Option<Boss>,
    pub portals: Option<(Point, Point)>,
    pub weather: Weather,
    pub lightning_column: Option<u16>,
    pub mines: Vec<Point>,
}

/// Whole seconds from `t` to `now` (milliseconds), zero when `t` is later.
pub open spec fn seconds_since(t: u64, now: u64) -> int {
    if now >= t { (now - t) / 1000 } else { 0 }
}

/// The time (milliseconds) `secs` seconds before `now`, when there is one.
pub open spec fn seconds_before(secs: u64, now: u64) -> Option<u64> {
    if secs * 1000 <= now { Some((now - secs * 1000) as u64) } else { None }
}

fn seconds_since_exec(t: u64, now: u64) -> (r: u64)
    ensures
        r == seconds_since(t, now),
{
    if now >= t { (now - t) / 1000 } else { 0 }
}

fn seconds_before_exec(secs: u64, now: u64) -> (r: Option<u64>)
    ensures
        r == seconds_before(secs, now),
{
    match secs.checked_mul(1000) {
        Some(ms) => if ms <= now { Some(now - ms) } else { None },
        None => None,
    }
}

/// Whether every cell of `s` lies inside the walls of a `w` by `h` board.
pub open spec fn all_inside(s: Seq<Point>, w: u16, h: u16) -> bool {
    forall|i: int| 0 <= i < s.len() ==> inside(#[trigger] s[i], w, h, 0)
}

fn all_inside_exec(s: &VecDeque<Point>, w: u16, h: u16) -> (r: bool)
    requires
        w >= 3,
        h >= 3,
    ensures
        r == all_inside(s@, w, h),
{
    let mut i: usize = 0;
    while i < s.len()
        invariant
            w >= 3,
            h >= 3,
            i <= s@.len(),
            forall|j: int| 0 <= j < i ==> inside(#[trigger] s@[j], w, h, 0),
        decreases s@.len() - i,
    {
        let p = s[i];
        if !(p.x > 0 && p.x < w - 1 && p.y > 0 && p.y < h - 1) {
            return false;
        }
        i = i + 1;
    }
    true
}

fn vec_inside(s: &Vec<Point>, w: u16, h: u16) -> (r: bool)
    requires
        w >= 3,
        h >= 3,
    ensures
        r == all_inside(s@, w, h),
{
    let mut i: usize = 0;
    while i < s.len()
        invariant
            w >= 3,
            h >= 3,
            i <= s@.len(),
            forall|j: int| 0 <= j < i ==> inside(#[trigger] s@[j], w, h, 0),
        decreases s@.len() - i,
    {
        let p = s[i];
        if !(p.x > 0 && p.x < w - 1 && p.y > 0 && p.y < h - 1) {
            return false;
        }
        i = i + 1;
    }
    true
}

/// Whether `p`, when there is one, lies inside the walls.
pub open spec fn opt_inside(p: Option<Point>, w: u16, h: u16) -> bool {
    match p {
        Some(q) => inside(q, w, h, 0),
        None => true,
    }
}

fn opt_inside_exec(p: Option<Point>, w: u16, h: u16) -> (r: bool)
    requires
        w >= 3,
        h >= 3,
    ensures
        r == opt_inside(p, w, h),
{
    match p {
        Some(q) => q.x > 0 && q.x < w - 1 && q.y > 0 && q.y < h - 1,
        None => true,
    }
}

/// The cell of a timed item, if there is one.
pub open spec fn item_cell(t: Option<(Point, u64)>) -> Option<Point> {
    match t {
        Some((p, _)) => Some(p),
        None => None,
    }
}

/// Where the power-up of `pu` lies, if there is one.
pub open spec fn pu_cell(pu: Option<PowerUp>) -> Option<Point> {
    match pu {
        Some(x) => Some(x.location),
        None => None,
    }
}

/// Whether the save `s` passes the checks of loading on a `w` by `h`
/// board: the cells of both snakes, the food, the obstacles, the bonus and
/// poison food and the power-up lie inside the walls.
pub open spec fn loadable(s: SaveState, w: u16, h: u16) -> bool {
    &&& all_inside(s.snake.cells(), w, h)
    &&& (s.player2 matches Some(p2) ==> all_inside(p2.cells(), w, h))
    &&& inside(s.food, w, h, 0)
    &&& all_inside(s.obstacles@, w, h)
    &&& opt_inside(item_cell(s.bonus_food), w, h)
    &&& opt_inside(item_cell(s.poison_food), w, h)
    &&& opt_inside(pu_cell(s.power_up), w, h)
}

/// Whether a game on a `w` by `h` board can hold the save `s` at all:
/// each snake has a cell, and a mode for two has a board at least eleven
/// wide (fresh snakes start five cells either side of the middle). A save
/// without these is one the game could not play.
pub open spec fn holdable(s: SaveState, w: u16, h: u16) -> bool {
    &&& s.snake.cells().len() > 0
    &&& (s.player2 matches Some(p2) ==> p2.cells().len() > 0)
    &&& (crate::kinds::spec_is_two_player(s.mode) ==> w >= 11)
}

/// The lasers of `ls` that lie on a `w` by `h` board, in order.
pub open spec fn lasers_kept(ls: Seq<Laser>, w: u16, h: u16) -> Seq<Laser>
    decreases ls.len(),
{
    if ls.len() == 0 {
        Seq::empty()
    } else {
        let rest = lasers_kept(ls.drop_last(), w, h);
        if on_board(ls.last().position, w, h) { rest.push(ls.last()) } else { rest }
    }
}

/// `p` when it lies on a `w` by `h` board.
pub open spec fn kept_on_board(p: Option<Point>, w: u16, h: u16) -> Option<Point> {
    match p {
        Some(q) => if on_board(q, w, h) { Some(q) } else { None },
        None => None,
    }
}

/// The safe-zone margin `m`, or, when it leaves no room on a `w` by `h`
/// board, the largest margin that does.
pub open spec fn fitted_margin(m: u16, w: u16, h: u16) -> u16 {
    if 2 * m + 3 <= w && 2 * m + 3 <= h {
        m
    } else {
        let a = (w - 3) / 2;
        let b = (h - 3) / 2;
        (if a < b { a } else { b }) as u16
    }
}

fn fit_margin(m: u16, w: u16, h: u16) -> (r: u16)
    requires
        w >= 3,
        h >= 3,
    ensures
        r == fitted_margin(m, w, h),
        2 * r + 3 <= w && 2 * r + 3 <= h,
{
    if 2 * (m as u32) + 3 <= w as u32 && 2 * (m as u32) + 3 <= h as u32 {
        m
    } else {
        let a = (w - 3) / 2;
        let b = (h - 3) / 2;
        if a < b { a } else { b }
    }
}

fn keep_lasers(ls: &Vec<Laser>, w: u16, h: u16) -> (r: Vec<Laser>)
    ensures
        r@ == lasers_kept(ls@, w, h),
        forall|i: int| 0 <= i < r@.len() ==> on_board(#[trigger] r@[i].position, w, h),
{
    let mut out: Vec<Laser> = Vec::new();
    let mut i: usize = 0;
    while i < ls.len()
        invariant
            i <= ls@.len(),
            out@ == lasers_kept(ls@.take(i as int), w, h),
            forall|k: int| 0 <= k < out@.len() ==> on_board(#[trigger] out@[k].position, w, h),
        decreases ls@.len() - i,
    {
        let l = ls[i];
        let ghost o0 = out@;
        assert(ls@.take(i + 1).drop_last() =~= ls@.take(i as int));
        assert(ls@.take(i + 1).last() == l);
        if l.position.x < w && l.position.y < h {
            out.push(l);
            proof {
                assert forall|k: int| 0 <= k < out@.len() implies on_board(#[trigger] out@[k].position, w, h) by {
                    if k < o0.len() {
                        assert(out@[k] == o0[k]);
                    }
                }
            }
        }
        i = i + 1;
    }
    assert(ls@.take(i as int) =~= ls@);
    out
}

/// A save's lasers all on the board are kept as they are.
proof fn lemma_lasers_kept_all(ls: Seq<Laser>, w: u16, h: u16)
    requires
        forall|i: int| 0 <= i < ls.len() ==> on_board(#[trigger] ls[i].position, w, h),
    ensures
        lasers_kept(ls, w, h) == ls,
    decreases ls.len(),
{
    if ls.len() > 0 {
        lemma_lasers_kept_all(ls.drop_last(), w, h);
        assert(on_board(ls[ls.len() - 1].position, w, h));
        assert(ls.drop_last().push(ls.last()) =~= ls);
    }
}

fn points_set(v: &Vec<Point>, w: u16, h: u16) -> (r: PointSet)
    requires
        w >= 3,
        h >= 3,
    ensures
        r.wf(),
        r.w() == w,
        r.h() == h,
        forall|p: Point| #[trigger] r@.contains(p) == (v@.contains(p) && on_board(p, w, h)),
{
    let mut set = PointSet::new(w, h);
    let mut i: usize = 0;
    while i < v.len()
        invariant
            w >= 3,
            h >= 3,
            i <= v@.len(),
            set.wf(),
            set.w() == w,
            set.h() == h,
            forall|p: Point| #[trigger] set@.contains(p) == (v@.take(i as int).contains(p) && on_board(p, w, h)),
        decreases v@.len() - i,
    {
        let p = v[i];
        if p.x < w && p.y < h {
            set.insert(p);
        }
        proof {
            let t = v@.take(i as int);
            let t1 = v@.take(i + 1);
            assert(t1 =~= t.push(p));
            assert forall|q: Point| #[trigger] set@.contains(q) == (t1.contains(q) && on_board(q, w, h)) by {
                if t.contains(q) {
                    let k = choose|k: int| 0 <= k < t.len() && t[k] == q;
                    assert(t1[k] == q);
                }
                if t1.contains(q) && q != p {
                    let k = choose|k: int| 0 <= k < t1.len() && t1[k] == q;
                    assert(t[k] == q);
                }
                if q == p {
                    assert(t1[i as int] == p);
                }
            }
        }
        i = i + 1;
    }
    assert(v@.take(i as int) =~= v@);
    set
}

impl Game {
    /// What a save of the game at `now` (milliseconds) holds: its mode,
    /// snakes, items, counters and settings, with the ages of the timed
    /// items in whole seconds (see `seconds_since`).
    pub open spec fn saved_as(&self, s: SaveState, now: u64) -> bool {
        &&& s.mode == self.mode
        &&& s.snake.cells() == self.snake.cells() && s.snake.direction == self.snake.direction
        &&& s.snake.direction_queue@ == self.snake.direction_queue@
        &&& crate::play::second_snakes_same(s.player2, self.player2)
        &&& s.food == self.food
        &&& (forall|p: Point| #[trigger] s.obstacles@.contains(p) == self.obstacles.has(p))
        &&& s.score == self.score
        &&& s.bonus_food == (match self.bonus_food {
            Some((p, t)) => Some((p, seconds_since(t, now) as u64)),
            None => None,
        })
        &&& s.poison_food == (match self.poison_food {
            Some((p, t)) => Some((p, seconds_since(t, now) as u64)),
            None => None,
        })
        &&& s.power_up == self.power_up
        &&& s.lives == self.lives
        &&& s.difficulty == self.difficulty
        &&& s.theme == self.theme
        &&& s.wrap_mode == self.wrap_mode
        &&& s.skin == self.skin
        &&& s.auto_pilot == self.auto_pilot
        &&& s.used_bot_this_session == self.used_bot_this_session
        &&& s.food_eaten_session == self.food_eaten_session
        &&& s.campaign_level == self.campaign_level
        &&& s.safe_zone_margin == self.safe_zone_margin
        &&& s.combo == self.combo
        &&& s.last_food_time == (match self.last_food_time {
            Some(t) => Some(seconds_since(t, now) as u64),
            None => None,
        })
        &&& s.lasers@ == self.lasers@
        &&& s.boss == self.boss
        &&& s.portals == self.portals
        &&& s.weather == self.weather
        &&& s.lightning_column == self.lightning_column
        &&& (forall|p: Point| #[trigger] s.mines@.contains(p) == self.mines.has(p))
    }

    /// Whether `self` is what loading the save `s` at `now` (milliseconds)
    /// onto a `w` by `h` board gives: see `load_save_state`.
    pub open spec fn loaded_from(&self, s: SaveState, now: u64, w: u16, h: u16) -> bool {
        let g = *self;
        &&& g.mode == s.mode
        &&& g.snake == s.snake
        &&& g.player2 == s.player2
        &&& g.food == s.food
        &&& (forall|p: Point| #[trigger] g.obstacles.has(p) == s.obstacles@.contains(p))
        &&& g.score == s.score
        &&& g.bonus_food == (match s.bonus_food {
            Some((p, secs)) => match seconds_before(secs, now) {
                Some(t) => Some((p, t)),
                None => None,
            },
            None => None,
        })
        &&& g.poison_food == (match s.poison_food {
            Some((p, secs)) => match seconds_before(secs, now) {
                Some(t) => Some((p, t)),
                None => None,
            },
            None => None,
        })
        &&& g.power_up == s.power_up
        &&& g.lives == s.lives
        &&& g.difficulty == s.difficulty
        &&& g.theme == s.theme
        &&& g.wrap_mode == s.wrap_mode
        &&& g.skin == s.skin
        &&& g.auto_pilot == s.auto_pilot
        &&& g.used_bot_this_session == s.used_bot_this_session
        &&& g.food_eaten_session == s.food_eaten_session
        &&& g.campaign_level == s.campaign_level
        &&& g.safe_zone_margin == fitted_margin(s.safe_zone_margin, w, h)
        &&& g.combo == s.combo
        &&& g.last_food_time == (match s.last_food_time {
            Some(secs) => seconds_before(secs, now),
            None => None,
        })
        &&& g.lasers@ == lasers_kept(s.lasers@, w, h)
        &&& g.boss == (match s.boss {
            Some(b) => if on_board(b.position, w, h) { Some(b) } else { None },
            None => None,
        })
        &&& g.portals == (match s.portals {
            Some((a, b)) => if on_board(a, w, h) && on_board(b, w, h) { Some((a, b)) } else { None },
            None => None,
        })
        &&& g.weather == s.weather
        &&& g.lightning_column == s.lightning_column
        &&& (forall|p: Point| #[trigger] g.mines.has(p) == (s.mines@.contains(p) && on_board(p, w, h)))
        &&& g.last_shrink_time == now
        &&& g.last_obstacle_spawn_time == now
        &&& g.start_time == now
        &&& g.state == GameState::Paused
        &&& g.history@.len() == 0
        &&& g.width == w
        &&& g.height == h
    }

    /// The game at `now` (milliseconds) as a save; see `saved_as`.
    pub fn to_save_state(&self, now: u64) -> (r: SaveState)
        requires
            self.wf(),
        ensures
            self.saved_as(r, now),
    {
        SaveState {
            mode: self.mode,
            snake: self.snake.duplicate(),
            player2: crate::play::copy_second(&self.player2),
            food: self.food,
            obstacles: self.obstacles.to_vec(),
            score: self.score,
            bonus_food: match self.bonus_food {
                Some((p, t)) => Some((p, seconds_since_exec(t, now))),
                None => None,
            },
            poison_food: match self.poison_food {
                Some((p, t)) => Some((p, seconds_since_exec(t, now))),
                None => None,
            },
            power_up: self.power_up,
            lives: self.lives,
            difficulty: self.difficulty,
            theme: self.theme,
            wrap_mode: self.wrap_mode,
            skin: self.skin,
            auto_pilot: self.auto_pilot,
            used_bot_this_session: self.used_bot_this_session,
            food_eaten_session: self.food_eaten_session,
            campaign_level: self.campaign_level,
            safe_zone_margin: self.safe_zone_margin,
            combo: self.combo,
            last_food_time: match self.last_food_time {
                Some(t) => Some(seconds_since_exec(t, now)),
                None => None,
            },
            lasers: crate::play::copy_lasers(&self.lasers),
            boss: self.boss,
            portals: self.portals,
            weather: self.weather,
            lightning_column: self.lightning_column,
            mines: self.mines.to_vec(),
        }
    }

    /// Checks `loadable`.
    pub fn is_loadable(&self, s: &SaveState) -> (r: bool)
        requires
            self.width >= 3,
            self.height >= 3,
        ensures
            r == loadable(*s, self.width, self.height),
    {
        let (w, h) = (self.width, self.height);
        let second_ok = match &s.player2 {
            Some(p2) => all_inside_exec(&p2.body, w, h),
            None => true,
        };
        let bonus = match s.bonus_food {
            Some((p, _)) => Some(p),
            None => None,
        };
        let poison = match s.poison_food {
            Some((p, _)) => Some(p),
            None => None,
        };
        let pu = match &s.power_up {
            Some(x) => Some(x.location),
            None => None,
        };
        all_inside_exec(&s.snake.body, w, h) && second_ok && opt_inside_exec(Some(s.food), w, h) && vec_inside(&s.obstacles, w, h)
            && opt_inside_exec(bonus, w, h) && opt_inside_exec(poison, w, h) && opt_inside_exec(pu, w, h)
    }

    /// Checks `holdable`.
    pub fn is_holdable(&self, s: &SaveState) -> (r: bool)
        ensures
            r == holdable(*s, self.width, self.height),
    {
        let second_ok = match &s.player2 {
            Some(p2) => p2.body.len() > 0,
            None => true,
        };
        let pair_ok = !s.mode.is_two_player() || self.width >= 11;
        s.snake.body.len() > 0 && second_ok && pair_ok
    }

    /// Loads the save `s` at `now` (milliseconds) when it is `loadable` and
    /// the game can hold it (see `holdable`), and says whether it did. The
    /// game takes the save's mode, snakes, items, counters and settings;
    /// lasers, a boss, portals and mines that lie off the board, where
    /// nothing can reach them, are left behind, and a safe-zone margin that
    /// leaves no room is cut to the largest that does (see
    /// `fitted_margin`); timed items whose age reaches back before the
    /// epoch are dropped (see `seconds_before`); the zone and obstacle
    /// timers and the start of the game are now; the game is paused and its
    /// history cleared. The high scores of the loaded mode are to be read
    /// by the caller.
    #[verifier::rlimit(40)]
    pub fn load_save_state(&mut self, s: SaveState, now: u64) -> (r: bool)
        requires
            old(self).wf(),
        ensures
            final(self).wf(),
            r == (loadable(s, old(self).width, old(self).height) && holdable(s, old(self).width, old(self).height)),
            !r ==> *final(self) == *old(self),
            r ==> final(self).loaded_from(s, now, old(self).width, old(self).height),
    {
        if !self.is_loadable(&s) || !self.is_holdable(&s) {
            return false;
        }
        let (w, h) = (self.width, self.height);
        let obstacles = points_set(&s.obstacles, w, h);
        let mines = points_set(&s.mines, w, h);
        self.mode = s.mode;
        self.snake = s.snake;
        self.player2 = s.player2;
        self.food = s.food;
        self.obstacles = obstacles;
        self.score = s.score;
        self.bonus_food = match s.bonus_food {
            Some((p, secs)) => match seconds_before_exec(secs, now) {
                Some(t) => Some((p, t)),
                None => None,
            },
            None => None,
        };
        self.poison_food = match s.poison_food {
            Some((p, secs)) => match seconds_before_exec(secs, now) {
                Some(t) => Some((p, t)),
                None => None,
            },
            None => None,
        };
        self.lives = s.lives;
        self.power_up = s.power_up;
        self.difficulty = s.difficulty;
        self.theme = s.theme;
        self.wrap_mode = s.wrap_mode;
        self.skin = s.skin;
        self.auto_pilot = s.auto_pilot;
        self.used_bot_this_session = s.used_bot_this_session;
        self.food_eaten_session = s.food_eaten_session;
        self.campaign_level = s.campaign_level;
        self.safe_zone_margin = fit_margin(s.safe_zone_margin, w, h);
        self.last_shrink_time = now;
        self.last_obstacle_spawn_time = now;
        self.combo = s.combo;
        self.last_food_time = match s.last_food_time {
            Some(secs) => seconds_before_exec(secs, now),
            None => None,
        };
        self.lasers = keep_lasers(&s.lasers, w, h);
        self.boss = match s.boss {
            Some(b) => if b.position.x < w && b.position.y < h { Some(b) } else { None },
            None => None,
        };
        self.portals = match s.portals {
            Some((a, b)) => if a.x < w && a.y < h && b.x < w && b.y < h { Some((a, b)) } else { None },
            None => None,
        };
        self.weather = s.weather;
        self.lightning_column = s.lightning_column;
        self.mines = mines;
        self.state = GameState::Paused;
        self.start_time = now;
        self.history = VecDeque::new();
        proof {
            assert forall|p: Point| #[trigger] self.obstacles.has(p) == s.obstacles@.contains(p) by {
                assert(self.obstacles@.contains(p) == self.obstacles.has(p));
            }
            assert forall|p: Point| #[trigger] self.mines.has(p) == (s.mines@.contains(p) && on_board(p, w, h)) by {
                assert(self.mines@.contains(p) == self.mines.has(p));
            }
        }
        true
    }
}

/// Saving a game and loading the save onto a board of the same size gives
/// back its mode, snakes, food, obstacles, score, lives, counters,
/// settings, power-up, lasers, boss, portals, weather and mines.
pub proof fn lemma_save_then_load(g0: Game, s: SaveState, t0: u64, g1: Game, t1: u64, w: u16, h: u16)
    requires
        g0.wf(),
        w == g0.width,
        h == g0.height,
        g0.saved_as(s, t0),
        g1.loaded_from(s, t1, w, h),
    ensures
        g1.mode == g0.mode,
        g1.snake.cells() == g0.snake.cells(),
        g1.snake.direction == g0.snake.direction,
        crate::play::second_snakes_same(g1.player2, g0.player2),
        g1.food == g0.food,
        forall|p: Point| #[trigger] g1.obstacles.has(p) == g0.obstacles.has(p),
        g1.score == g0.score,
        g1.lives == g0.lives,
        g1.difficulty == g0.difficulty,
        g1.theme == g0.theme,
        g1.wrap_mode == g0.wrap_mode,
        g1.skin == g0.skin,
        g1.auto_pilot == g0.auto_pilot,
        g1.used_bot_this_session == g0.used_bot_this_session,
        g1.food_eaten_session == g0.food_eaten_session,
        g1.campaign_level == g0.campaign_level,
        g1.safe_zone_margin == g0.safe_zone_margin,
        g1.combo == g0.combo,
        g1.power_up == g0.power_up,
        g1.lasers@ == g0.lasers@,
        g1.boss == g0.boss,
        g1.portals == g0.portals,
        g1.weather == g0.weather,
        g1.lightning_column == g0.lightning_column,
        forall|p: Point| #[trigger] g1.mines.has(p) == g0.mines.has(p),
{
    assert forall|p: Point| #[trigger] g1.obstacles.has(p) == g0.obstacles.has(p) by {
        assert(s.obstacles@.contains(p) == g0.obstacles.has(p));
    }
    assert forall|p: Point| #[trigger] g1.mines.has(p) == g0.mines.has(p) by {
        assert(s.mines@.contains(p) == g0.mines.has(p));
        if g0.mines.has(p) {
            g0.mines.lemma_has_on_board(p);
        }
    }
    lemma_lasers_kept_all(s.lasers@, w, h);
}

} // verus!
