use crate::color::Color;
use crate::kinds::{
    spec_obstacle_count, spec_score_factor, Achievement, Difficulty, GameMode, GameState, Laser, Boss, PowerUp, PowerUpType, Statistics,
    Theme, Weather,
};
use crate::levels::{campaign_layout, campaign_obstacles};
use crate::pointset::PointSet;
use crate::rng::{gen_range_u16, gen_range_usize, gen_ratio, fresh_rng};
use crate::snake::{spec_step, step, step_fits, Direction, Point, Snake};
use rand::rngs::StdRng;
use std::collections::VecDeque;
use vstd::prelude::*;

verus! {

broadcast use vstd::std_specs::vecdeque::group_vec_dequeue_axioms;

/// Something for the front end to play or draw, produced by the game logic.
#[derive(Clone, Copy, Debug, PartialEq, Eq, Structural)]
pub enum Effect {
    /// The terminal bell.
    Beep,
    /// A burst of `count` particles drawn as `symbol` around a cell.
    Particles { x: u16, y: u16, count: u16, color: Color, symbol: char },
    /// The statistics changed and should be stored.
    SaveStats,
    /// The high-score list changed and should be stored.
    SaveHighScores,
    /// A game against the bot ended; the ratings move accordingly.
    EloResult { player_won: bool, draw: bool },
}

/// What a step back in time restores. Times are milliseconds since the Unix epoch.
pub struct HistoryState {
    pub snake: Snake,
    pub player2: Option<Snake>,
    pub food: Point,
    pub obstacles: PointSet,
    pub score: u32,
    pub bonus_food: Option<(Point, u64)>,
    pub poison_food: Option<(Point, u64)>,
    pub power_up: Option<PowerUp>,
    pub lives: u32,
    pub food_eaten_session: u32,
    pub campaign_level: u32,
    pub safe_zone_margin: u16,
    pub last_shrink_time: u64,
    pub last_obstacle_spawn_time: u64,
    pub combo: u32,
    pub last_food_time: Option<u64>,
    pub lasers: Vec<Laser>,
    pub boss: Option<Boss>,
    pub portals: Option<(Point, Point)>,
    pub weather: Weather,
    pub lightning_column: Option<u16>,
    pub mines: PointSet,
}

/// The whole state of a game. Times are milliseconds since the Unix epoch;
/// the activation time of a power-up is in seconds.
pub struct Game {
    pub width: u16,
    pub height: u16,
    pub wrap_mode: bool,
    pub snake: Snake,
    pub food: Point,
    pub bonus_food: Option<(Point, u64)>,
    pub poison_food: Option<(Point, u64)>,
    pub power_up: Option<PowerUp>,
    pub obstacles: PointSet,
    pub score: u32,
    pub high_score: u32,
    pub high_scores: Vec<(String, u32)>,
    pub state: GameState,
    pub rng: StdRng,
    pub just_died: bool,
    pub skin: char,
    pub theme: Theme,
    pub lives: u32,
    pub menu_selection: usize,
    pub settings_selection: usize,
    pub nft_selection: usize,
    pub skill_tree_selection: usize,
    pub stats: Statistics,
    pub start_time: u64,
    pub death_message: String,
    pub difficulty: Difficulty,
    pub player_name: String,
    pub previous_state: Option<GameState>,
    pub auto_pilot: bool,
    pub used_bot_this_session: bool,
    pub autopilot_path: Vec<Point>,
    pub p2_autopilot_path: Vec<Point>,
    pub food_eaten_session: u32,
    pub mode: GameMode,
    pub player2: Option<Snake>,
    pub campaign_level: u32,
    pub safe_zone_margin: u16,
    pub last_shrink_time: u64,
    pub last_obstacle_spawn_time: u64,
    pub history: VecDeque<HistoryState>,
    pub editor_cursor: Option<Point>,
    pub combo: u32,
    pub last_food_time: Option<u64>,
    pub chat_log: VecDeque<(String, Color)>,
    pub last_chat_time: Option<u64>,
    pub lasers: Vec<Laser>,
    pub boss: Option<Boss>,
    pub portals: Option<(Point, Point)>,
    pub weather: Weather,
    pub lightning_column: Option<u16>,
    pub mines: PointSet,
    pub effects: Vec<Effect>,
}

/// Whether `p` lies inside the walls of a `w` by `h` board shrunk by `margin`
/// on every side.
pub open spec fn inside(p: Point, w: u16, h: u16, margin: u16) -> bool {
    margin < p.x && p.x + 1 + margin < w && margin < p.y && p.y + 1 + margin < h
}

/// Whether `p` is a cell of a `w` by `h` board.
pub open spec fn on_board(p: Point, w: u16, h: u16) -> bool {
    p.x < w && p.y < h
}

/// Whether every cell of `s` is a cell of a `w` by `h` board.
pub open spec fn all_on_board(s: Seq<Point>, w: u16, h: u16) -> bool {
    forall|i: int| 0 <= i < s.len() ==> on_board(#[trigger] s[i], w, h)
}

/// A cell that is neither part of `snake`, nor in `a` or `b`, nor listed in `extra`.
pub open spec fn free_cell(p: Point, snake: Seq<Point>, a: Set<Point>, b: Set<Point>, extra: Seq<Point>) -> bool {
    !snake.contains(p) && !a.contains(p) && !b.contains(p) && !extra.contains(p)
}

/// `a - b`, or 0 when `b` is larger.
pub open spec fn sat_sub(a: int, b: int) -> int {
    if a >= b { a - b } else { 0 }
}

impl Game {
    /// The shape every operation relies on: a board of at least 3 by 3 cells
    /// with room for the safe-zone margin, sets of the board's size, and
    /// snakes, lasers, portals and boss on the board.
    pub open spec fn wf(&self) -> bool {
        &&& 3 <= self.width < u16::MAX
        &&& 5 <= self.height < u16::MAX
        &&& (crate::kinds::spec_is_two_player(self.mode) ==> self.width >= 11)
        &&& 2 * self.safe_zone_margin + 3 <= self.width
        &&& 2 * self.safe_zone_margin + 3 <= self.height
        &&& self.obstacles.wf() && self.obstacles.w() == self.width && self.obstacles.h() == self.height
        &&& self.mines.wf() && self.mines.w() == self.width && self.mines.h() == self.height
        &&& self.snake.cells().len() > 0
        &&& all_on_board(self.snake.cells(), self.width, self.height)
        &&& on_board(self.food, self.width, self.height)
        &&& (self.bonus_food matches Some((b, _)) ==> on_board(b, self.width, self.height))
        &&& (self.poison_food matches Some((b, _)) ==> on_board(b, self.width, self.height))
        &&& (self.power_up matches Some(pu) ==> on_board(pu.location, self.width, self.height))
        &&& (self.player2 matches Some(p2) ==> p2.cells().len() > 0 && all_on_board(p2.cells(), self.width, self.height))
        &&& (self.portals matches Some((a, b)) ==> on_board(a, self.width, self.height) && on_board(b, self.width, self.height))
        &&& (self.boss matches Some(bs) ==> on_board(bs.position, self.width, self.height))
        &&& forall|i: int| 0 <= i < self.lasers@.len() ==> on_board(#[trigger] self.lasers@[i].position, self.width, self.height)
    }

    /// The snakes of `self` and `o` are the same.
    pub open spec fn snakes_same(&self, o: Game) -> bool {
        &&& self.snake.cells() == o.snake.cells()
        &&& self.snake.direction == o.snake.direction
        &&& self.snake.direction_queue@ == o.snake.direction_queue@
        &&& self.player2 is Some == o.player2 is Some
        &&& (self.player2 matches Some(a) ==> o.player2 matches Some(b) && a.cells() == b.cells() && a.direction
            == b.direction && a.direction_queue@ == b.direction_queue@)
    }

    /// The parts of the board other than the food, the obstacles, the
    /// poison food and the lasers are the same in `self` and `o`.
    pub open spec fn board_core_same(&self, o: Game) -> bool {
        &&& self.width == o.width
        &&& self.height == o.height
        &&& self.wrap_mode == o.wrap_mode
        &&& self.mode == o.mode
        &&& self.bonus_food == o.bonus_food
        &&& self.power_up == o.power_up
        &&& self.mines.wf() == o.mines.wf() && self.mines.w() == o.mines.w() && self.mines.h() == o.mines.h()
        &&& self.mines@ == o.mines@
        &&& self.portals == o.portals
        &&& self.boss == o.boss
        &&& self.weather == o.weather
        &&& self.lightning_column == o.lightning_column
        &&& self.safe_zone_margin == o.safe_zone_margin
    }

    /// The board of `self` and `o` is the same but for the obstacles and the safe zone.
    pub open spec fn board_same_but_obstacles_and_zone(&self, o: Game) -> bool {
        &&& self.width == o.width
        &&& self.height == o.height
        &&& self.wrap_mode == o.wrap_mode
        &&& self.mode == o.mode
        &&& self.bonus_food == o.bonus_food
        &&& self.power_up == o.power_up
        &&& self.mines.wf() == o.mines.wf() && self.mines.w() == o.mines.w() && self.mines.h() == o.mines.h()
        &&& self.mines@ == o.mines@
        &&& self.portals == o.portals
        &&& self.boss == o.boss
        &&& self.weather == o.weather
        &&& self.lightning_column == o.lightning_column
        &&& self.food == o.food
        &&& self.poison_food == o.poison_food
        &&& self.lasers@ == o.lasers@
    }

    /// The obstacles of `self` and `o` are the same.
    pub open spec fn obstacles_same(&self, o: Game) -> bool {
        &&& self.obstacles.wf() == o.obstacles.wf() && self.obstacles.w() == o.obstacles.w() && self.obstacles.h() == o.obstacles.h()
        &&& self.obstacles@ == o.obstacles@
    }

    /// The board of `self` and `o` is the same: size, mode, items, obstacles,
    /// mines, portals, boss, lasers and weather.
    pub open spec fn board_same(&self, o: Game) -> bool {
        &&& self.board_same_but_lasers(o)
        &&& self.lasers@ == o.lasers@
    }

    /// The board of `self` and `o` is the same but for the lasers.
    pub open spec fn board_same_but_lasers(&self, o: Game) -> bool {
        &&& self.board_core_same(o)
        &&& self.food == o.food
        &&& self.poison_food == o.poison_food
        &&& self.obstacles_same(o)
    }

    /// The board of `self` and `o` is the same but for the obstacles.
    pub open spec fn board_same_but_obstacles(&self, o: Game) -> bool {
        &&& self.board_core_same(o)
        &&& self.food == o.food
        &&& self.poison_food == o.poison_food
        &&& self.lasers@ == o.lasers@
    }

    /// The board of `self` and `o` is the same but for the poison food.
    pub open spec fn board_same_but_poison(&self, o: Game) -> bool {
        &&& self.board_core_same(o)
        &&& self.food == o.food
        &&& self.obstacles_same(o)
        &&& self.lasers@ == o.lasers@
    }

    /// The board of `self` and `o` is the same but for the food.
    pub open spec fn board_same_but_food(&self, o: Game) -> bool {
        &&& self.board_core_same(o)
        &&& self.poison_food == o.poison_food
        &&& self.obstacles_same(o)
        &&& self.lasers@ == o.lasers@
    }

    /// The score, lives, progress, records and settings of `self` and `o` are the same.
    pub open spec fn progress_same(&self, o: Game) -> bool {
        &&& self.score == o.score
        &&& self.high_score == o.high_score
        &&& self.high_scores@ == o.high_scores@
        &&& self.lives == o.lives
        &&& self.combo == o.combo
        &&& self.food_eaten_session == o.food_eaten_session
        &&& self.campaign_level == o.campaign_level
        &&& self.stats == o.stats
        &&& self.state == o.state
        &&& self.previous_state == o.previous_state
        &&& self.just_died == o.just_died
        &&& self.difficulty == o.difficulty
        &&& self.theme == o.theme
        &&& self.skin == o.skin
        &&& self.auto_pilot == o.auto_pilot
        &&& self.used_bot_this_session == o.used_bot_this_session
        &&& self.start_time == o.start_time
        &&& self.last_food_time == o.last_food_time
        &&& self.last_shrink_time == o.last_shrink_time
        &&& self.last_obstacle_spawn_time == o.last_obstacle_spawn_time
        &&& self.death_message@ == o.death_message@
        &&& self.player_name@ == o.player_name@
        &&& self.history@.len() == o.history@.len()
    }

    /// The margin of the shrinking safe zone, which only Battle Royale uses.
    pub open spec fn margin(&self) -> u16 {
        if self.mode == GameMode::BattleRoyale { self.safe_zone_margin } else { 0 }
    }

    /// How long, in seconds, a timed power-up lasts.
    pub open spec fn spec_powerup_duration(&self) -> int {
        5 + self.stats.upgrade_powerup_duration
    }

    /// Whether a power-up of `kind` is in effect at `now` (Unix seconds).
    pub open spec fn power_active(&self, kind: PowerUpType, now: u64) -> bool {
        match self.power_up {
            Some(pu) => pu.p_type == kind && match pu.activation_time {
                Some(t) => sat_sub(now as int, t as int) < self.spec_powerup_duration(),
                None => false,
            },
            None => false,
        }
    }

    /// Whether a snake leaving the board comes back on the other side at `now`.
    pub open spec fn wraps(&self, now: u64) -> bool {
        (self.wrap_mode || self.power_active(PowerUpType::PassThroughWalls, now) || self.mode == GameMode::Zen)
            && self.mode != GameMode::BattleRoyale
    }

    /// `p` brought back onto the board when it lies on or past a wall.
    pub open spec fn wrapped(&self, p: Point) -> Point {
        Point {
            x: if p.x == 0 { (self.width - 2) as u16 } else if p.x + 1 >= self.width { 1 } else { p.x },
            y: if p.y == 0 { (self.height - 2) as u16 } else if p.y + 1 >= self.height { 1 } else { p.y },
        }
    }

    /// The other end of the portal at `p`, if a portal stands there.
    pub open spec fn portal_exit(&self, p: Point) -> Option<Point> {
        match self.portals {
            Some((a, b)) => if p == a {
                Some(b)
            } else if p == b {
                Some(a)
            } else {
                None
            },
            None => None,
        }
    }

    /// Where a snake ends up when it moves onto `p` at `now`: through a portal,
    /// around the board when it wraps, or nowhere when it hits a wall.
    pub open spec fn final_p(&self, p: Point, now: u64) -> Option<Point> {
        if self.portal_exit(p) is Some {
            self.portal_exit(p)
        } else if self.wraps(now) {
            Some(self.wrapped(p))
        } else if inside(p, self.width, self.height, self.margin()) {
            Some(p)
        } else {
            None
        }
    }

    /// Where a snake ends up when its next cell is `p`, and whether it hit a
    /// wall there, as the move itself resolves it (a portal takes precedence).
    pub open spec fn resolve_head(&self, p: Point, now: u64) -> (Point, bool) {
        if self.portal_exit(p) is Some {
            (self.portal_exit(p)->0, false)
        } else if self.wraps(now) {
            (self.wrapped(p), false)
        } else {
            (p, !inside(p, self.width, self.height, self.margin()))
        }
    }

    /// How long, in seconds, a timed power-up lasts: five seconds and one
    /// more for each level of the duration upgrade.
    pub fn powerup_duration(&self) -> (r: u64)
        ensures
            r == self.spec_powerup_duration(),
    {
        5 + self.stats.upgrade_powerup_duration as u64
    }

    /// Whether a power-up of `kind` is in effect at `now` (Unix seconds).
    pub fn is_power_active(&self, kind: PowerUpType, now: u64) -> (r: bool)
        ensures
            r == self.power_active(kind, now),
    {
        match &self.power_up {
            Some(pu) => {
                if pu.p_type == kind {
                    match pu.activation_time {
                        Some(t) => {
                            let elapsed = if now >= t { now - t } else { 0 };
                            elapsed < self.powerup_duration()
                        },
                        None => false,
                    }
                } else {
                    false
                }
            },
            None => false,
        }
    }

    pub(crate) fn margin_now(&self) -> (r: u16)
        ensures
            r == self.margin(),
    {
        if self.mode == GameMode::BattleRoyale {
            self.safe_zone_margin
        } else {
            0
        }
    }

    pub(crate) fn is_inside(&self, p: Point, margin: u16) -> (r: bool)
        requires
            2 * margin + 3 <= self.width,
            2 * margin + 3 <= self.height,
        ensures
            r == inside(p, self.width, self.height, margin),
    {
        p.x > margin && p.x < self.width - 1 - margin && p.y > margin && p.y < self.height - 1 - margin
    }

    pub(crate) fn wraps_at(&self, now: u64) -> (r: bool)
        ensures
            r == self.wraps(now),
    {
        (self.wrap_mode || self.is_power_active(PowerUpType::PassThroughWalls, now) || self.mode == GameMode::Zen)
            && self.mode != GameMode::BattleRoyale
    }

    /// `next_head` brought back onto the board when it lies on or past a wall.
    pub fn calculate_wrapped_head(&self, next_head: Point) -> (r: Point)
        requires
            self.width >= 3,
            self.height >= 3,
        ensures
            r == self.wrapped(next_head),
    {
        let mut x = next_head.x;
        let mut y = next_head.y;
        if x == 0 {
            x = self.width - 2;
        } else if x >= self.width - 1 {
            x = 1;
        }
        if y == 0 {
            y = self.height - 2;
        } else if y >= self.height - 1 {
            y = 1;
        }
        Point { x, y }
    }

    /// One step from `head` in `dir`; a step up from row 0 or left from
    /// column 0 wraps around to `u16::MAX`.
    pub fn calculate_next_head_dir(head: Point, dir: Direction) -> (r: Point)
        requires
            step_fits(head, dir),
        ensures
            r == spec_step(head, dir),
    {
        step(head, dir)
    }

    /// Where a snake ends up when it moves onto `p` at `now` (Unix seconds).
    pub fn get_final_p_at(&self, p: Point, now: u64) -> (r: Option<Point>)
        requires
            self.wf(),
        ensures
            r == self.final_p(p, now),
    {
        if let Some((portal1, portal2)) = self.portals {
            if p == portal1 {
                return Some(portal2);
            } else if p == portal2 {
                return Some(portal1);
            }
        }
        if self.wraps_at(now) {
            Some(self.calculate_wrapped_head(p))
        } else {
            let margin = self.margin_now();
            if self.is_inside(p, margin) {
                Some(p)
            } else {
                None
            }
        }
    }

    /// Where a snake ends up when it moves onto `p` now, by the system clock.
    pub fn get_final_p(&self, p: Point) -> (r: Option<Point>)
        requires
            self.wf(),
        ensures
            exists|now: u64| r == self.final_p(p, now),
    {
        let now = crate::clock::now_millis() / 1000;
        self.get_final_p_at(p, now)
    }

    pub(crate) fn resolve_head_at(&self, next: Point, now: u64) -> (r: (Point, bool))
        requires
            self.wf(),
        ensures
            r == self.resolve_head(next, now),
    {
        if let Some((portal1, portal2)) = self.portals {
            if next == portal1 {
                return (portal2, false);
            } else if next == portal2 {
                return (portal1, false);
            }
        }
        if self.wraps_at(now) {
            (self.calculate_wrapped_head(next), false)
        } else {
            let margin = self.margin_now();
            (next, !self.is_inside(next, margin))
        }
    }

    /// The cells the snakes move to next at `now` (Unix seconds), and whether
    /// each hit a wall: one step along the current heading, resolved through
    /// portals, wrapping and the walls.
    pub fn calculate_final_heads_at(&self, now: u64) -> (r: (Point, Option<Point>, bool, bool))
        requires
            self.wf(),
        ensures
            (r.0, r.2) == self.resolve_head(spec_step(self.snake.cells()[0], self.snake.direction), now),
            self.player2 is None ==> r.1 is None && !r.3,
            self.player2 matches Some(p2) ==> r.1 matches Some(h2) && (h2, r.3) == self.resolve_head(
                spec_step(p2.cells()[0], p2.direction),
                now,
            ),
    {
        let head1 = self.snake.head();
        let next1 = Self::calculate_next_head_dir(head1, self.snake.direction);
        let (final1, wall1) = self.resolve_head_at(next1, now);
        match &self.player2 {
            Some(p2) => {
                let head2 = p2.head();
                let next2 = Self::calculate_next_head_dir(head2, p2.direction);
                let (final2, wall2) = self.resolve_head_at(next2, now);
                (final1, Some(final2), wall1, wall2)
            },
            None => (final1, None, wall1, false),
        }
    }

    /// The cells the snakes move to next, by the system clock.
    pub fn calculate_final_heads(&self) -> (r: (Point, Option<Point>, bool, bool))
        requires
            self.wf(),
        ensures
            exists|now: u64|
                (r.0, r.2) == self.resolve_head(spec_step(self.snake.cells()[0], self.snake.direction), now)
                && (self.player2 is None ==> r.1 is None && !r.3)
                && (self.player2 matches Some(p2) ==> r.1 matches Some(h2) && (h2, r.3) == self.resolve_head(
                    spec_step(p2.cells()[0], p2.direction),
                    now,
                )),
    {
        let now = crate::clock::now_millis() / 1000;
        self.calculate_final_heads_at(now)
    }
}

/// Whether `p` is listed in `v`.
pub(crate) fn vec_contains(v: &Vec<Point>, p: Point) -> (r: bool)
    ensures
        r == v@.contains(p),
{
    let mut i: usize = 0;
    while i < v.len()
        invariant
            i <= v@.len(),
            forall|j: int| 0 <= j < i ==> v@[j] != p,
        decreases v@.len() - i,
    {
        if v[i] == p {
            return true;
        }
        i = i + 1;
    }
    false
}

pub(crate) fn is_free_cell(p: Point, snake: &Snake, a: &PointSet, b: &PointSet, extra: &Vec<Point>) -> (r: bool)
    requires
        a.wf(),
        b.wf(),
    ensures
        r == free_cell(p, snake.cells(), a@, b@, extra@),
{
    !snake.contains(p) && !a.contains(p) && !b.contains(p) && !vec_contains(extra, p)
}

/// A random free cell inside the walls shrunk by `margin`: up to a hundred
/// random tries, then a random pick among all free cells; `None` when every
/// such cell is taken. A cell is free when it is not part of `snake`, not in
/// `a` or `b` and not listed in `extra`.
pub(crate) fn get_random_empty_point(
    width: u16,
    height: u16,
    snake: &Snake,
    a: &PointSet,
    b: &PointSet,
    extra: &Vec<Point>,
    rng: &mut StdRng,
    margin: u16,
) -> (r: Option<Point>)
    requires
        2 * margin + 3 <= width,
        2 * margin + 3 <= height,
        a.wf(),
        b.wf(),
    ensures
        r matches Some(p) ==> inside(p, width, height, margin) && free_cell(p, snake.cells(), a@, b@, extra@),
        r is None ==> forall|p: Point| inside(p, width, height, margin) ==> !free_cell(p, snake.cells(), a@, b@, extra@),
{
    let min_x = 1 + margin;
    let max_x = width - 1 - margin;
    let min_y = 1 + margin;
    let max_y = height - 1 - margin;
    let mut i: u32 = 0;
    while i < 100
        invariant
            min_x == 1 + margin,
            max_x == width - 1 - margin,
            min_y == 1 + margin,
            max_y == height - 1 - margin,
            min_x < max_x,
            min_y < max_y,
            a.wf(),
            b.wf(),
        decreases 100 - i,
    {
        let x = gen_range_u16(rng, min_x, max_x);
        let y = gen_range_u16(rng, min_y, max_y);
        let p = Point { x, y };
        if is_free_cell(p, snake, a, b, extra) {
            return Some(p);
        }
        i = i + 1;
    }
    let mut empty: Vec<Point> = Vec::new();
    let mut y = min_y;
    while y < max_y
        invariant
            min_x == 1 + margin,
            max_x == width - 1 - margin,
            min_y == 1 + margin,
            max_y == height - 1 - margin,
            min_x < max_x,
            min_y <= y <= max_y,
            a.wf(),
            b.wf(),
            forall|i: int| 0 <= i < empty@.len() ==> inside(#[trigger] empty@[i], width, height, margin)
                && free_cell(empty@[i], snake.cells(), a@, b@, extra@),
            forall|p: Point| inside(p, width, height, margin) && p.y < y && free_cell(p, snake.cells(), a@, b@, extra@)
                ==> empty@.contains(p),
        decreases max_y - y,
    {
        let mut x = min_x;
        while x < max_x
            invariant
                min_x == 1 + margin,
                max_x == width - 1 - margin,
                min_y == 1 + margin,
                max_y == height - 1 - margin,
                min_x <= x <= max_x,
                min_y <= y < max_y,
                a.wf(),
                b.wf(),
                forall|i: int| 0 <= i < empty@.len() ==> inside(#[trigger] empty@[i], width, height, margin)
                    && free_cell(empty@[i], snake.cells(), a@, b@, extra@),
                forall|p: Point| inside(p, width, height, margin) && (p.y < y || (p.y == y && p.x < x)) && free_cell(
                    p,
                    snake.cells(),
                    a@,
                    b@,
                    extra@,
                ) ==> empty@.contains(p),
            decreases max_x - x,
        {
            let p = Point { x, y };
            let ghost before = empty@;
            let free = is_free_cell(p, snake, a, b, extra);
            if free {
                empty.push(p);
            }
            proof {
                assert forall|q: Point| inside(q, width, height, margin) && (q.y < y || (q.y == y && q.x < x + 1))
                    && free_cell(q, snake.cells(), a@, b@, extra@) implies empty@.contains(q) by {
                    if q == p {
                        assert(empty@[before.len() as int] == p);
                    } else {
                        assert(before.contains(q));
                        let k = choose|k: int| 0 <= k < before.len() && before[k] == q;
                        assert(empty@[k] == q);
                    }
                }
                assert forall|i: int| 0 <= i < empty@.len() implies inside(#[trigger] empty@[i], width, height, margin)
                    && free_cell(empty@[i], snake.cells(), a@, b@, extra@) by {
                    if i < before.len() {
                        assert(empty@[i] == before[i]);
                    }
                }
            }
            x = x + 1;
        }
        y = y + 1;
    }
    if empty.len() > 0 {
        let idx = gen_range_usize(rng, 0, empty.len());
        Some(empty[idx])
    } else {
        proof {
            assert forall|p: Point| inside(p, width, height, margin) implies !free_cell(p, snake.cells(), a@, b@, extra@) by {
                if free_cell(p, snake.cells(), a@, b@, extra@) {
                    assert(empty@.contains(p));
                }
            }
        }
        None
    }
}

/// Up to `count` obstacles at random free cells inside the walls shrunk by
/// `margin`, avoiding `snake`, the cells of `a` and the cells in `extra`;
/// fewer only when no free cell is left.
pub(crate) fn generate_obstacles(
    width: u16,
    height: u16,
    snake: &Snake,
    a: &PointSet,
    extra: &Vec<Point>,
    rng: &mut StdRng,
    count: u32,
    margin: u16,
) -> (r: PointSet)
    requires
        2 * margin + 3 <= width,
        2 * margin + 3 <= height,
        a.wf(),
    ensures
        r.wf(),
        r.w() == width,
        r.h() == height,
        r@.finite(),
        r@.len() <= count,
        forall|p: Point| #[trigger] r.has(p) ==> inside(p, width, height, margin) && !snake.cells().contains(p) && !a.has(p)
            && !extra@.contains(p),
        r@.len() == count || forall|p: Point| inside(p, width, height, margin) ==> !free_cell(
            p,
            snake.cells(),
            a@,
            r@,
            extra@,
        ),
{
    let mut obstacles = PointSet::new(width, height);
    let mut i: u32 = 0;
    while i < count
        invariant
            2 * margin + 3 <= width,
            2 * margin + 3 <= height,
            a.wf(),
            obstacles.wf(),
            obstacles.w() == width,
            obstacles.h() == height,
            i <= count,
            obstacles@.finite(),
            obstacles@.len() <= i,
            forall|p: Point| #[trigger] obstacles.has(p) ==> inside(p, width, height, margin) && !snake.cells().contains(p)
                && !a.has(p) && !extra@.contains(p),
            obstacles@.len() == i || forall|p: Point| inside(p, width, height, margin) ==> !free_cell(
                p,
                snake.cells(),
                a@,
                obstacles@,
                extra@,
            ),
        decreases count - i,
    {
        match get_random_empty_point(width, height, snake, a, &obstacles, extra, rng, margin) {
            Some(p) => {
                obstacles.insert(p);
            },
            None => {},
        }
        i = i + 1;
    }
    obstacles
}

impl Game {
    /// What every new game looks like on a `width` by `height` board: one
    /// snake of three cells in the middle heading up, the obstacles that the
    /// difficulty asks for at random cells inside the walls (never on the
    /// snake nor on the cell just above its head), food on a free cell inside
    /// the walls, no score yet and the menu open.
    pub open spec fn is_new_game(&self, width: u16, height: u16, wrap_mode: bool, skin: char, theme: Theme, difficulty: Difficulty) -> bool {
        &&& self.wf()
        &&& self.width == width
        &&& self.height == height
        &&& self.wrap_mode == wrap_mode
        &&& self.skin == skin
        &&& self.theme == theme
        &&& self.difficulty == difficulty
        &&& self.mode == GameMode::SinglePlayer
        &&& self.state == GameState::Menu
        &&& self.snake.cells() == seq![
            Point { x: width / 2, y: height / 2 },
            Point { x: width / 2, y: (height / 2 + 1) as u16 },
            Point { x: width / 2, y: (height / 2 + 2) as u16 },
        ]
        &&& self.snake.direction == Direction::Up
        &&& self.snake.direction_queue@.len() == 0
        &&& self.player2 is None
        &&& (self.obstacles@.len() == spec_obstacle_count(difficulty) || forall|p: Point| inside(p, width, height, 0)
            && !self.snake.cells().contains(p) && p != (Point { x: width / 2, y: (height / 2 - 1) as u16 }) ==> #[trigger] self.obstacles.has(p))
        &&& forall|p: Point| #[trigger] self.obstacles.has(p) ==> inside(p, width, height, 0) && !self.snake.cells().contains(p)
                && p != (Point { x: width / 2, y: (height / 2 - 1) as u16 })
        &&& inside(self.food, width, height, 0)
        &&& !self.snake.cells().contains(self.food)
        &&& !self.obstacles.has(self.food)
        &&& self.score == 0
        &&& self.bonus_food is None
        &&& self.poison_food is None
        &&& self.power_up is None
        &&& self.boss is None
        &&& self.portals is None
        &&& self.lasers@.len() == 0
        &&& self.mines@ == Set::<Point>::empty()
        &&& self.weather == Weather::Clear
        &&& self.lightning_column is None
        &&& self.campaign_level == 1
        &&& self.safe_zone_margin == 0
        &&& self.food_eaten_session == 0
        &&& self.combo == 0
        &&& !self.auto_pilot
        &&& !self.used_bot_this_session
        &&& !self.just_died
        &&& self.history@.len() == 0
        &&& self.effects@.len() == 0
    }

    /// A new game with no high scores and the statistics of a player who has
    /// not played yet; the front end passes stored records to `with_records`.
    pub fn new(width: u16, height: u16, wrap_mode: bool, skin: char, theme: Theme, difficulty: Difficulty) -> (g: Game)
        requires
            3 <= width < u16::MAX,
            5 <= height < u16::MAX,
        ensures
            g.is_new_game(width, height, wrap_mode, skin, theme, difficulty),
            g.high_scores@.len() == 0,
            g.high_score == 0,
            g.lives == 3,
            g.stats.coins == 0,
            g.stats.games_played == 0,
            g.stats.upgrade_powerup_duration == 0,
            g.stats.upgrade_extra_lives == 0,
            g.stats.upgrade_laser_capacity == 0,
            g.stats.upgrade_coin_multiplier == 0,
            g.stats.unlocked_achievements@.len() == 0,
    {
        let stats = crate::kinds::complete_loaded_statistics(Statistics::default());
        Self::with_records(width, height, wrap_mode, skin, theme, difficulty, Vec::new(), stats)
    }

    /// A new game on a `width` by `height` board, with the given high scores
    /// and statistics: one snake of three cells in the middle heading up,
    /// obstacles as many as the difficulty asks for placed at random (never
    /// on the snake nor on the cell just above its head), food on a free cell,
    /// lives three and one per level of the extra-lives upgrade, and the menu
    /// open.
    pub fn with_records(
        width: u16,
        height: u16,
        wrap_mode: bool,
        skin: char,
        theme: Theme,
        difficulty: Difficulty,
        high_scores: Vec<(String, u32)>,
        stats: Statistics,
    ) -> (g: Game)
        requires
            3 <= width < u16::MAX,
            5 <= height < u16::MAX,
        ensures
            g.is_new_game(width, height, wrap_mode, skin, theme, difficulty),
            g.high_scores@ == high_scores@,
            g.high_score == (if high_scores@.len() > 0 { high_scores@[0].1 } else { 0 }),
            g.lives == 3 + stats.upgrade_extra_lives,
            g.stats == stats,
    {
        let now = crate::clock::now_millis();
        let mut rng = fresh_rng(now);
        let start_x = width / 2;
        let start_y = height / 2;
        let snake = Snake::new(Point { x: start_x, y: start_y });
        let obs_count = difficulty.obstacle_count();
        let no_cells = PointSet::new(width, height);
        let mut above: Vec<Point> = Vec::new();
        above.push(Point { x: start_x, y: start_y - 1 });
        let obstacles = generate_obstacles(width, height, &snake, &no_cells, &above, &mut rng, obs_count, 0);
        proof {
            assert(above@[0] == Point { x: start_x, y: (start_y - 1) as u16 });
            assert forall|p: Point| #[trigger] obstacles.has(p) implies p != (Point { x: start_x, y: (start_y - 1) as u16 }) by {
                if p == (Point { x: start_x, y: (start_y - 1) as u16 }) {
                    assert(above@.contains(p));
                }
            }
        }
        let nothing: Vec<Point> = Vec::new();
        let food_opt = get_random_empty_point(width, height, &snake, &no_cells, &obstacles, &nothing, &mut rng, 0);
        proof {
            let above_p = Point { x: start_x, y: (start_y - 1) as u16 };
            assert(inside(above_p, width, height, 0));
            assert(!snake.cells().contains(above_p));
            assert(!obstacles.has(above_p));
            assert(!obstacles@.contains(above_p));
            assert(free_cell(above_p, snake.cells(), no_cells@, obstacles@, nothing@));
            if obstacles@.len() != obs_count {
                assert forall|p: Point| inside(p, width, height, 0) && !snake.cells().contains(p) && p != above_p
                    implies #[trigger] obstacles.has(p) by {
                    assert(!free_cell(p, snake.cells(), no_cells@, obstacles@, above@));
                    if above@.contains(p) {
                        assert(above@[0] == p);
                    }
                    assert(obstacles@.contains(p));
                }
            }
        }
        let food = food_opt.unwrap();
        let high_score = if high_scores.len() > 0 { high_scores[0].1 } else { 0 };
        let lives = 3 + stats.upgrade_extra_lives as u32;
        let g = Game {
            width,
            height,
            wrap_mode,
            snake,
            food,
            bonus_food: None,
            poison_food: None,
            power_up: None,
            obstacles,
            score: 0,
            high_score,
            high_scores,
            state: GameState::Menu,
            rng,
            just_died: false,
            skin,
            theme,
            lives,
            menu_selection: 0,
            settings_selection: 0,
            nft_selection: 0,
            skill_tree_selection: 0,
            stats,
            start_time: now,
            death_message: String::new(),
            difficulty,
            player_name: String::new(),
            previous_state: None,
            auto_pilot: false,
            used_bot_this_session: false,
            autopilot_path: Vec::new(),
            p2_autopilot_path: Vec::new(),
            food_eaten_session: 0,
            mode: GameMode::SinglePlayer,
            player2: None,
            campaign_level: 1,
            safe_zone_margin: 0,
            last_shrink_time: now,
            last_obstacle_spawn_time: now,
            history: VecDeque::new(),
            editor_cursor: None,
            combo: 0,
            last_food_time: None,
            chat_log: VecDeque::new(),
            last_chat_time: None,
            lasers: Vec::new(),
            boss: None,
            portals: None,
            weather: Weather::Clear,
            lightning_column: None,
            mines: PointSet::new(width, height),
            effects: Vec::new(),
        };
        g
    }
}

/// The turns queued for a snake after the player asks for `dir`: at most two
/// wait at a time, and a turn back onto the snake or onto the heading it
/// will already have is ignored.
pub open spec fn queued_turns(queue: Seq<Direction>, heading: Direction, dir: Direction) -> Seq<Direction> {
    let current = if queue.len() > 0 { queue.last() } else { heading };
    if queue.len() >= 2 || dir == crate::snake::spec_opposite(current) || dir == current {
        queue
    } else {
        queue.push(dir)
    }
}

/// How many of `lasers` belong to `player`.
pub open spec fn lasers_of(lasers: Seq<Laser>, player: u8) -> nat
    decreases lasers.len(),
{
    if lasers.len() == 0 {
        0
    } else {
        lasers_of(lasers.drop_last(), player) + (if lasers.last().player == player { 1nat } else { 0nat })
    }
}

/// Whether a move onto `head` kills the snake with `body` through its body: a
/// move onto its own tail is safe when the snake does not grow, since the tail
/// moves away.
pub open spec fn body_hit(body: Seq<Point>, head: Point, grows: bool, invincible: bool) -> bool {
    body.contains(head) && !invincible && (grows || head != body.last())
}

pub(crate) fn queue_turn(s: &mut Snake, dir: Direction)
    ensures
        final(s).direction_queue@ == queued_turns(old(s).direction_queue@, old(s).direction, dir),
        final(s).cells() == old(s).cells(),
        final(s).direction == old(s).direction,
{
    if s.direction_queue.len() >= 2 {
        return;
    }
    let current = if s.direction_queue.len() > 0 {
        s.direction_queue[s.direction_queue.len() - 1]
    } else {
        s.direction
    };
    if dir != current.opposite() && dir != current {
        s.direction_queue.push_back(dir);
    }
}

impl Game {
    /// Queues the turn `dir` for `player` (1 or 2; another number, or 2
    /// without a second snake, changes nothing); see `queued_turns`.
    pub fn handle_input(&mut self, dir: Direction, player: u8)
        ensures
            final(self).board_same(*old(self)),
            final(self).progress_same(*old(self)),
            final(self).snake.cells() == old(self).snake.cells(),
            final(self).snake.direction == old(self).snake.direction,
            final(self).snake.direction_queue@ == (if player == 1 {
                queued_turns(old(self).snake.direction_queue@, old(self).snake.direction, dir)
            } else {
                old(self).snake.direction_queue@
            }),
            final(self).player2 is Some == old(self).player2 is Some,
            old(self).player2 matches Some(a) ==> final(self).player2 matches Some(b) && b.cells() == a.cells()
                && b.direction == a.direction && b.direction_queue@ == (if player == 2 {
                queued_turns(a.direction_queue@, a.direction, dir)
            } else {
                a.direction_queue@
            }),
            final(self).effects@ == old(self).effects@,
    {
        if player == 1 {
            queue_turn(&mut self.snake, dir);
        } else if player == 2 {
            match &mut self.player2 {
                Some(p2) => queue_turn(p2, dir),
                None => {},
            }
        }
    }

    /// How many lasers of `player` are in flight.
    pub(crate) fn count_lasers(&self, player: u8) -> (r: usize)
        ensures
            r == lasers_of(self.lasers@, player),
    {
        let mut n: usize = 0;
        let mut i: usize = 0;
        while i < self.lasers.len()
            invariant
                i <= self.lasers@.len(),
                n == lasers_of(self.lasers@.take(i as int), player),
                n <= i,
            decreases self.lasers@.len() - i,
        {
            proof {
                assert(self.lasers@.take(i as int + 1).drop_last() =~= self.lasers@.take(i as int));
            }
            if self.lasers[i].player == player {
                n = n + 1;
            }
            i = i + 1;
        }
        assert(self.lasers@.take(i as int) =~= self.lasers@);
        n
    }

    /// The laser that `player` fires now, if it may: players 1 and 2 (2 only
    /// with a second snake) fire from the cell in front of the head along
    /// the heading, when fewer than three plus the capacity upgrade of their
    /// lasers are in flight and that cell lies inside the walls.
    pub open spec fn laser_shot(&self, player: u8) -> Option<Laser> {
        let ok_player = player == 1 || (player == 2 && self.player2 is Some);
        let (head, dir) = if player == 1 {
            (self.snake.cells()[0], self.snake.direction)
        } else {
            (self.player2->0.cells()[0], self.player2->0.direction)
        };
        let pos = spec_step(head, dir);
        if ok_player && lasers_of(self.lasers@, player) < 3 + self.stats.upgrade_laser_capacity
            && inside(pos, self.width, self.height, self.margin()) {
            Some(Laser { position: pos, direction: dir, player })
        } else {
            None
        }
    }

    /// Fires a laser for `player` when `laser_shot` allows one, with a beep.
    pub fn shoot_laser(&mut self, player: u8)
        requires
            old(self).wf(),
        ensures
            final(self).wf(),
            final(self).snakes_same(*old(self)),
            final(self).progress_same(*old(self)),
            final(self).lasers@ == (match old(self).laser_shot(player) {
                Some(l) => old(self).lasers@.push(l),
                None => old(self).lasers@,
            }),
            final(self).effects@ == (if old(self).laser_shot(player) is Some {
                old(self).effects@.push(Effect::Beep)
            } else {
                old(self).effects@
            }),
            final(self).board_same_but_lasers(*old(self)),
    {
        let active = self.count_lasers(player);
        let max_lasers = 3 + self.stats.upgrade_laser_capacity as usize;
        if active >= max_lasers {
            return;
        }
        let (head, dir) = if player == 1 {
            (self.snake.head(), self.snake.direction)
        } else if player == 2 {
            match &self.player2 {
                Some(p2) => (p2.head(), p2.direction),
                None => {
                    return;
                },
            }
        } else {
            return;
        };
        let laser_pos = Self::calculate_next_head_dir(head, dir);
        let margin = self.margin_now();
        if self.is_inside(laser_pos, margin) {
            self.lasers.push(Laser { position: laser_pos, direction: dir, player });
            self.effects.push(Effect::Beep);
            proof {
                assert forall|i: int| 0 <= i < self.lasers@.len() implies on_board(#[trigger] self.lasers@[i].position, self.width, self.height) by {
                    if i < old(self).lasers@.len() {
                        assert(self.lasers@[i] == old(self).lasers@[i]);
                    }
                }
            }
        }
    }
}

/// How far a cell is from the edge of the `u16` range in direction `dir`;
/// it shrinks with every step that stays inside the walls.
pub open spec fn room_ahead(p: Point, dir: Direction) -> int {
    match dir {
        Direction::Up => p.y as int,
        Direction::Down => u16::MAX - p.y,
        Direction::Left => p.x as int,
        Direction::Right => u16::MAX - p.x,
    }
}

/// `body` when the snake exists.
pub open spec fn cells_of(s: Option<Snake>) -> Seq<Point> {
    match s {
        Some(sn) => sn.cells(),
        None => Seq::empty(),
    }
}

/// The heading a snake will have after its queued turns.
pub open spec fn last_heading(s: Snake) -> Direction {
    if s.direction_queue@.len() > 0 { s.direction_queue@.last() } else { s.direction }
}

impl Game {
    /// Whether the boss stands on `p`.
    pub open spec fn boss_at(&self, p: Point) -> bool {
        match self.boss {
            Some(b) => b.position == p,
            None => false,
        }
    }

    /// What a shot of `player` along `dir` from `pos`, `steps` cells already
    /// travelled, would hit first: the boss or the other snake (shoot), an
    /// obstacle (shoot when within five cells), its own body or a wall (hold).
    pub open spec fn ray_shoots(&self, pos: Point, dir: Direction, player: u8, steps: nat) -> bool
        decreases room_ahead(pos, dir),
    {
        if !inside(pos, self.width, self.height, self.margin()) {
            false
        } else if self.boss_at(pos) {
            true
        } else if player == 1 && cells_of(self.player2).contains(pos) {
            true
        } else if player == 2 && self.snake.cells().contains(pos) {
            true
        } else if self.obstacles.has(pos) {
            steps + 1 <= 5
        } else if player == 1 && self.snake.cells().contains(pos) {
            false
        } else if player == 2 && cells_of(self.player2).contains(pos) {
            false
        } else {
            self.ray_shoots(spec_step(pos, dir), dir, player, steps + 1)
        }
    }

    /// Whether the bot playing `player` should fire: a shot from the cell
    /// in front of its head, along the heading it will have after its queued
    /// turns, would hit something worth hitting (see `ray_shoots`).
    pub open spec fn bot_should_shoot(&self, player: u8) -> bool {
        if player == 1 {
            self.ray_shoots(spec_step(self.snake.cells()[0], last_heading(self.snake)), last_heading(self.snake), 1, 0)
        } else if player == 2 && self.player2 is Some {
            let p2 = self.player2->0;
            self.ray_shoots(spec_step(p2.cells()[0], last_heading(p2)), last_heading(p2), 2, 0)
        } else {
            false
        }
    }

    pub(crate) fn other_contains(&self, p: Point) -> (r: bool)
        ensures
            r == cells_of(self.player2).contains(p),
    {
        match &self.player2 {
            Some(p2) => p2.contains(p),
            None => false,
        }
    }

    pub(crate) fn boss_on(&self, p: Point) -> (r: bool)
        ensures
            r == self.boss_at(p),
    {
        match &self.boss {
            Some(b) => b.position == p,
            None => false,
        }
    }

    /// Whether the bot playing `player` should fire now; see `bot_should_shoot`.
    pub fn should_bot_shoot(&self, player: u8) -> (r: bool)
        requires
            self.wf(),
        ensures
            r == self.bot_should_shoot(player),
    {
        let (head, dir) = if player == 1 {
            let d = if self.snake.direction_queue.len() > 0 {
                self.snake.direction_queue[self.snake.direction_queue.len() - 1]
            } else {
                self.snake.direction
            };
            (self.snake.head(), d)
        } else if player == 2 {
            match &self.player2 {
                Some(p2) => {
                    let d = if p2.direction_queue.len() > 0 {
                        p2.direction_queue[p2.direction_queue.len() - 1]
                    } else {
                        p2.direction
                    };
                    (p2.head(), d)
                },
                None => {
                    return false;
                },
            }
        } else {
            return false;
        };
        let margin = self.margin_now();
        let mut current = Self::calculate_next_head_dir(head, dir);
        let mut steps: u32 = 0;
        let ghost mut travelled: nat = 0;
        while self.is_inside(current, margin)
            invariant
                self.wf(),
                margin == self.margin(),
                steps == (if travelled < 6 { travelled } else { 6 }),
                self.bot_should_shoot(player) == self.ray_shoots(current, dir, player, travelled),
            decreases room_ahead(current, dir),
        {
            if steps < 6 {
                steps = steps + 1;
            }
            if self.boss_on(current) {
                return true;
            }
            if player == 1 {
                if self.other_contains(current) {
                    return true;
                }
            } else if player == 2 && self.snake.contains(current) {
                return true;
            }
            if self.obstacles.contains(current) {
                return steps <= 5;
            }
            if player == 1 {
                if self.snake.contains(current) {
                    return false;
                }
            } else if player == 2 && self.other_contains(current) {
                return false;
            }
            current = Self::calculate_next_head_dir(current, dir);
            proof {
                travelled = travelled + 1;
            }
        }
        false
    }

    /// Which snakes die by running into a body, given where the heads go and
    /// which snakes grow: into itself or into the other snake, a tail that
    /// moves away being safe; nobody dies this way while invincible.
    pub fn check_body_collisions(
        &self,
        final_head1: Point,
        final_head2_opt: Option<Point>,
        is_invincible: bool,
        p1_grow: bool,
        p2_grow: bool,
    ) -> (r: (bool, bool))
        requires
            self.wf(),
        ensures
            r.0 == (body_hit(self.snake.cells(), final_head1, p1_grow, is_invincible) || (final_head2_opt is Some
                && self.player2 is Some && body_hit(cells_of(self.player2), final_head1, p2_grow, is_invincible))),
            r.1 == (match final_head2_opt {
                Some(h2) => (self.player2 is Some && body_hit(cells_of(self.player2), h2, p2_grow, is_invincible))
                    || body_hit(self.snake.cells(), h2, p1_grow, is_invincible),
                None => false,
            }),
    {
        let mut p1_dead = false;
        let mut p2_dead = false;
        if self.snake.contains(final_head1) && !is_invincible {
            let is_tail = final_head1 == self.snake.tail();
            if p1_grow || !is_tail {
                p1_dead = true;
            }
        }
        if let Some(final_head2) = final_head2_opt {
            if let Some(p2) = &self.player2 {
                if p2.contains(final_head2) && !is_invincible {
                    let is_tail = final_head2 == p2.tail();
                    if p2_grow || !is_tail {
                        p2_dead = true;
                    }
                }
                if p2.contains(final_head1) && !is_invincible {
                    let is_tail = final_head1 == p2.tail();
                    if p2_grow || !is_tail {
                        p1_dead = true;
                    }
                }
            }
            if self.snake.contains(final_head2) && !is_invincible {
                let is_tail = final_head2 == self.snake.tail();
                if p1_grow || !is_tail {
                    p2_dead = true;
                }
            }
        }
        (p1_dead, p2_dead)
    }
}

/// The four headings in the order the game tries them: up, down, left, right.
pub open spec fn dir_at(i: int) -> Direction {
    if i == 0 {
        Direction::Up
    } else if i == 1 {
        Direction::Down
    } else if i == 2 {
        Direction::Left
    } else {
        Direction::Right
    }
}

pub(crate) fn dir_of_index(i: usize) -> (d: Direction)
    requires
        i < 4,
    ensures
        d == dir_at(i as int),
{
    if i == 0 {
        Direction::Up
    } else if i == 1 {
        Direction::Down
    } else if i == 2 {
        Direction::Left
    } else {
        Direction::Right
    }
}

/// `|a - b|`.
pub open spec fn abs_diff(a: int, b: int) -> int {
    if a >= b { a - b } else { b - a }
}

/// The Manhattan distance between two cells, capped at `u16::MAX`.
pub open spec fn manhattan_sat(a: Point, b: Point) -> int {
    let d = abs_diff(a.x as int, b.x as int) + abs_diff(a.y as int, b.y as int);
    if d <= u16::MAX { d } else { u16::MAX as int }
}

pub(crate) fn manhattan(a: Point, b: Point) -> (r: u16)
    ensures
        r == manhattan_sat(a, b),
{
    let dx = if a.x >= b.x { a.x - b.x } else { b.x - a.x };
    let dy = if a.y >= b.y { a.y - b.y } else { b.y - a.y };
    dx.saturating_add(dy)
}

/// Whether `p` is within two cells of `h` in both axes.
pub open spec fn near2(p: Point, h: Point) -> bool {
    abs_diff(p.x as int, h.x as int) <= 2 && abs_diff(p.y as int, h.y as int) <= 2
}

/// 1 when `s` holds the cell at `(x, y)`, else 0.
pub open spec fn cell_bit(s: Set<Point>, x: int, y: int) -> int {
    if s.contains(Point { x: x as u16, y: y as u16 }) { 1 } else { 0 }
}

/// How many of the eight neighbours of `(x, y)` are in `s`.
pub open spec fn neighbour_count(s: Set<Point>, x: int, y: int) -> int {
    cell_bit(s, x - 1, y - 1) + cell_bit(s, x, y - 1) + cell_bit(s, x + 1, y - 1) + cell_bit(s, x - 1, y)
        + cell_bit(s, x + 1, y) + cell_bit(s, x - 1, y + 1) + cell_bit(s, x, y + 1) + cell_bit(s, x + 1, y + 1)
}

/// The achievements in the order the game checks them.
pub open spec fn achievement_order() -> Seq<Achievement> {
    seq![
        Achievement::FirstBlood,
        Achievement::HighScorer,
        Achievement::Rich,
        Achievement::BotUser,
        Achievement::BossSlayer,
        Achievement::MassiveMultiplayerEnthusiast,
    ]
}

impl Game {
    /// Whether the magnet may pull the food onto `p`: inside the walls and
    /// off the obstacles and both snakes.
    pub open spec fn magnet_ok(&self, p: Point) -> bool {
        inside(p, self.width, self.height, self.margin()) && !self.obstacles.has(p) && !self.snake.cells().contains(p)
            && !cells_of(self.player2).contains(p)
    }

    /// The best cell next to the food among the first `i` headings: the
    /// first that is allowed and strictly closer to the head than both the
    /// food and every earlier candidate, with its distance.
    pub open spec fn magnet_scan(&self, i: nat) -> (int, Option<Point>)
        decreases i,
    {
        if i == 0 {
            (u16::MAX as int, None)
        } else {
            let (bd, bp) = self.magnet_scan((i - 1) as nat);
            let p = spec_step(self.food, dir_at(i - 1));
            let d = manhattan_sat(p, self.snake.cells()[0]);
            if self.magnet_ok(p) && d < manhattan_sat(self.food, self.snake.cells()[0]) && d < bd {
                (d, Some(p))
            } else {
                (bd, bp)
            }
        }
    }

    /// Where the magnet pulls the food, if anywhere.
    pub open spec fn magnet_target(&self) -> Option<Point> {
        self.magnet_scan(4).1
    }

    /// Whether moving the food of `g` onto `p` is a pull that keeps the food
    /// reachable: `p` is one step from the food, strictly closer to the
    /// head, inside the walls of the safe zone, and off every obstacle and
    /// both snakes.
    pub open spec fn pull_clear(g: Game, p: Point) -> bool {
        &&& exists|j: int| 0 <= j < 4 && p == #[trigger] spec_step(g.food, dir_at(j))
        &&& manhattan_sat(p, g.snake.cells()[0]) < manhattan_sat(g.food, g.snake.cells()[0])
        &&& inside(p, g.width, g.height, g.margin())
        &&& !g.obstacles.has(p)
        &&& !g.snake.cells().contains(p)
        &&& !cells_of(g.player2).contains(p)
    }

    /// Every cell the scan of the first `i` headings picks is a clear pull.
    proof fn lemma_magnet_scan(&self, i: nat)
        ensures
            self.magnet_scan(i).1 matches Some(p) ==> Game::pull_clear(*self, p),
        decreases i,
    {
        if i > 0 {
            self.lemma_magnet_scan((i - 1) as nat);
            let p = spec_step(self.food, dir_at(i - 1));
            let (bd, bp) = self.magnet_scan((i - 1) as nat);
            if self.magnet_ok(p) && manhattan_sat(p, self.snake.cells()[0]) < manhattan_sat(self.food, self.snake.cells()[0])
                && manhattan_sat(p, self.snake.cells()[0]) < bd {
                assert(p == spec_step(self.food, dir_at(i - 1)));
            }
        }
    }

    /// While the magnet power-up is in effect at `now` (Unix seconds), with
    /// chance one in four the food moves one cell closer to the head (see
    /// `magnet_target`); otherwise nothing changes.
    pub fn apply_magnet_at(&mut self, now: u64)
        requires
            old(self).wf(),
        ensures
            final(self).wf(),
            final(self).food == old(self).food || (old(self).power_active(PowerUpType::Magnet, now)
                && old(self).magnet_target() == Some(final(self).food)),
            !old(self).power_active(PowerUpType::Magnet, now) ==> final(self).food == old(self).food,
            final(self).snakes_same(*old(self)),
            final(self).progress_same(*old(self)),
            ({
                let g = *final(self);
                g.food == old(self).food ==> g.board_same(*old(self))
            }),
            final(self).effects@ == old(self).effects@,
            final(self).board_same_but_food(*old(self)),
            final(self).food != old(self).food ==> Game::pull_clear(*old(self), final(self).food),
    {
        proof {
            lemma_magnet_target_clear(*old(self));
        }
        if !self.is_power_active(PowerUpType::Magnet, now) {
            return;
        }
        if !gen_ratio(&mut self.rng, 1, 4) {
            return;
        }
        let head = self.snake.head();
        let mut best_dist: u16 = u16::MAX;
        let mut best_pos: Option<Point> = None;
        let current_dist = manhattan(self.food, head);
        let margin = self.margin_now();
        let mut i: usize = 0;
        while i < 4
            invariant
                self.wf(),
                old(self).wf(),
                self.snake == old(self).snake,
                self.player2 == old(self).player2,
                self.obstacles == old(self).obstacles,
                self.food == old(self).food,
                self.width == old(self).width,
                self.height == old(self).height,
                self.mode == old(self).mode,
                self.safe_zone_margin == old(self).safe_zone_margin,
                margin == self.margin(),
                head == self.snake.cells()[0],
                current_dist == manhattan_sat(self.food, head),
                i <= 4,
                (best_dist as int, best_pos) == old(self).magnet_scan(i as nat),
                best_pos matches Some(p) ==> inside(p, self.width, self.height, margin),
            decreases 4 - i,
        {
            let d = dir_of_index(i);
            let next_p = Self::calculate_next_head_dir(self.food, d);
            if self.is_inside(next_p, margin) && !self.obstacles.contains(next_p) && !self.snake.contains(next_p)
                && !self.other_contains(next_p) {
                let dist = manhattan(next_p, head);
                if dist < current_dist && dist < best_dist {
                    best_dist = dist;
                    best_pos = Some(next_p);
                }
            }
            i = i + 1;
        }
        if let Some(new_food_pos) = best_pos {
            self.food = new_food_pos;
        }
    }

    /// The magnet pull, by the system clock.
    pub fn apply_magnet(&mut self)
        requires
            old(self).wf(),
        ensures
            final(self).wf(),
            final(self).food == old(self).food || old(self).magnet_target() == Some(final(self).food),
            exists|now: u64| (!old(self).power_active(PowerUpType::Magnet, now) ==> final(self).food == old(self).food)
                && (final(self).food == old(self).food || (old(self).power_active(PowerUpType::Magnet, now)
                && old(self).magnet_target() == Some(final(self).food))),
            final(self).snakes_same(*old(self)),
            final(self).progress_same(*old(self)),
            final(self).effects@ == old(self).effects@,
            final(self).board_same_but_food(*old(self)),
            final(self).food == old(self).food ==> final(self).board_same(*old(self)),
            final(self).food != old(self).food ==> Game::pull_clear(*old(self), final(self).food),
    {
        let now = crate::clock::now_millis() / 1000;
        self.apply_magnet_at(now);
        assert((!old(self).power_active(PowerUpType::Magnet, now) ==> self.food == old(self).food) && (self.food == old(self).food
            || (old(self).power_active(PowerUpType::Magnet, now) && old(self).magnet_target() == Some(self.food))));
    }

    /// Whether `p` is kept clear by the game of life: within two cells of a head.
    pub open spec fn life_safe(&self, p: Point) -> bool {
        near2(p, self.snake.cells()[0]) || (self.player2 is Some && near2(p, self.player2->0.cells()[0]))
    }

    /// Whether an obstacle may not stand on `p` after a generation: a snake,
    /// the food, the bonus or poison food or the power-up is there.
    pub open spec fn life_blocked(&self, p: Point) -> bool {
        ||| self.snake.cells().contains(p)
        ||| cells_of(self.player2).contains(p)
        ||| p == self.food
        ||| (self.bonus_food matches Some((b, _)) && b == p)
        ||| (self.poison_food matches Some((b, _)) && b == p)
        ||| (self.power_up matches Some(pu) && pu.location == p)
    }

    /// Whether `p` holds an obstacle after one generation of the game of life:
    /// an interior cell away from the heads with three obstacle neighbours, or
    /// with two while it already holds one, and nothing else in the way.
    pub open spec fn life_next(&self, p: Point) -> bool {
        let n = neighbour_count(self.obstacles@, p.x as int, p.y as int);
        &&& inside(p, self.width, self.height, 0)
        &&& !self.life_safe(p)
        &&& (n == 3 || (self.obstacles.has(p) && n == 2))
        &&& !self.life_blocked(p)
    }

    /// Whether no obstacle of `obs` lies on a cell of either snake of `g`, on
    /// its food, its bonus or poison food, or its power-up.
    pub open spec fn items_clear(g: Game, obs: Set<Point>) -> bool {
        forall|p: Point|
            #[trigger] obs.contains(p) ==> {
                &&& !g.snake.cells().contains(p)
                &&& !cells_of(g.player2).contains(p)
                &&& p != g.food
                &&& !(g.bonus_food matches Some((b, _)) && b == p)
                &&& !(g.poison_food matches Some((b, _)) && b == p)
                &&& !(g.power_up matches Some(pu) && pu.location == p)
            }
    }

    pub(crate) fn is_life_blocked(&self, p: Point) -> (r: bool)
        ensures
            r == self.life_blocked(p),
    {
        self.snake.contains(p) || self.other_contains(p) || p == self.food || (match self.bonus_food {
            Some((b, _)) => b == p,
            None => false,
        }) || (match self.poison_food {
            Some((b, _)) => b == p,
            None => false,
        }) || (match &self.power_up {
            Some(pu) => pu.location == p,
            None => false,
        })
    }

    pub(crate) fn is_near2(p: Point, h: Point) -> (r: bool)
        ensures
            r == near2(p, h),
    {
        let dx = if p.x >= h.x { p.x - h.x } else { h.x - p.x };
        let dy = if p.y >= h.y { p.y - h.y } else { h.y - p.y };
        dx <= 2 && dy <= 2
    }

    pub(crate) fn bit(&self, x: u16, y: u16) -> (r: u32)
        requires
            self.obstacles.wf(),
        ensures
            r == cell_bit(self.obstacles@, x as int, y as int),
    {
        if self.obstacles.contains(Point { x, y }) {
            1
        } else {
            0
        }
    }

    /// In Evolution mode, replaces the obstacles by their next generation
    /// (see `life_next`); in any other mode nothing changes.
    pub fn evolve_game_of_life(&mut self)
        requires
            old(self).wf(),
        ensures
            final(self).wf(),
            old(self).mode != GameMode::Evolution ==> final(self).obstacles@ == old(self).obstacles@,
            old(self).mode == GameMode::Evolution ==> forall|p: Point| #[trigger] final(self).obstacles.has(p)
                == old(self).life_next(p),
            old(self).mode == GameMode::Evolution ==> Game::items_clear(*old(self), final(self).obstacles@),
            final(self).snakes_same(*old(self)),
            final(self).progress_same(*old(self)),
            final(self).food == old(self).food,
            final(self).effects@ == old(self).effects@,
            final(self).board_same_but_obstacles(*old(self)),
            final(self).last_chat_time == old(self).last_chat_time,
    {
        if self.mode != GameMode::Evolution {
            return;
        }
        let mut next = PointSet::new(self.width, self.height);
        let h1 = self.snake.head();
        let mut y: u16 = 1;
        while y < self.height - 1
            invariant
                self.wf(),
                self == old(self),
                h1 == self.snake.cells()[0],
                1 <= y <= self.height - 1,
                next.wf(),
                next.w() == self.width,
                next.h() == self.height,
                forall|p: Point| #[trigger] next.has(p) == (p.y < y && self.life_next(p)),
            decreases self.height - y,
        {
            let mut x: u16 = 1;
            while x < self.width - 1
                invariant
                    self.wf(),
                    self == old(self),
                    h1 == self.snake.cells()[0],
                    1 <= y < self.height - 1,
                    1 <= x <= self.width - 1,
                    next.wf(),
                    next.w() == self.width,
                    next.h() == self.height,
                    forall|p: Point| #[trigger] next.has(p) == ((p.y < y || (p.y == y && p.x < x)) && self.life_next(p)),
                decreases self.width - x,
            {
                let p = Point { x, y };
                let mut safe = Self::is_near2(p, h1);
                if let Some(p2) = &self.player2 {
                    if Self::is_near2(p, p2.head()) {
                        safe = true;
                    }
                }
                if !safe {
                    let n = self.bit(x - 1, y - 1) + self.bit(x, y - 1) + self.bit(x + 1, y - 1) + self.bit(x - 1, y)
                        + self.bit(x + 1, y) + self.bit(x - 1, y + 1) + self.bit(x, y + 1) + self.bit(x + 1, y + 1);
                    let alive = self.obstacles.contains(p);
                    if (n == 3 || (alive && n == 2)) && !self.is_life_blocked(p) {
                        next.insert(p);
                    }
                }
                proof {
                    assert(self.life_safe(p) == safe);
                }
                x = x + 1;
            }
            y = y + 1;
        }
        proof {
            assert forall|p: Point| #[trigger] next.has(p) == self.life_next(p) by {
                if self.life_next(p) {
                    assert(p.y < self.height - 1);
                }
            }
            lemma_generation_clear(*self, next@);
        }
        self.obstacles = next;
    }

    /// Whether the player has just earned `a`.
    pub open spec fn earned(&self, a: Achievement) -> bool {
        match a {
            Achievement::FirstBlood => self.stats.games_played > 0,
            Achievement::HighScorer => self.score >= 100,
            Achievement::Rich => self.stats.coins >= 1000,
            Achievement::BotUser => self.used_bot_this_session,
            Achievement::BossSlayer => self.mode == GameMode::BossRush && self.campaign_level > 5,
            Achievement::MassiveMultiplayerEnthusiast => self.mode == GameMode::MassiveMultiplayer,
            Achievement::PoisonEater => false,
        }
    }

    /// An earned achievement that is not unlocked is among the new ones.
    proof fn lemma_new_has(&self, i: nat, k: int)
        requires
            0 <= k < i <= 6,
            !self.stats.unlocked_achievements@.contains(achievement_order()[k]),
            self.earned(achievement_order()[k]),
        ensures
            self.new_achievements(i).contains(achievement_order()[k]),
        decreases i,
    {
        if k < i - 1 {
            self.lemma_new_has((i - 1) as nat, k);
            let a = achievement_order()[i - 1];
            if !self.stats.unlocked_achievements@.contains(a) && self.earned(a) {
                let rest = self.new_achievements((i - 1) as nat);
                let j = choose|j: int| 0 <= j < rest.len() && rest[j] == achievement_order()[k];
                assert(rest.push(a)[j] == achievement_order()[k]);
            }
        } else {
            let rest = self.new_achievements((i - 1) as nat);
            assert(rest.push(achievement_order()[k])[rest.len() as int] == achievement_order()[k]);
        }
    }

    /// Once the new achievements of `o` are unlocked, with the same ones
    /// earned, none is new any more.
    proof fn lemma_none_new(&self, o: Game, i: nat)
        requires
            i <= 6,
            self.stats.unlocked_achievements@ == o.stats.unlocked_achievements@ + o.new_achievements(6),
            forall|a: Achievement| #[trigger] self.earned(a) == o.earned(a),
        ensures
            self.new_achievements(i).len() == 0,
        decreases i,
    {
        if i > 0 {
            self.lemma_none_new(o, (i - 1) as nat);
            let a = achievement_order()[i - 1];
            if !self.stats.unlocked_achievements@.contains(a) && self.earned(a) {
                assert(!o.stats.unlocked_achievements@.contains(a)) by {
                    if o.stats.unlocked_achievements@.contains(a) {
                        let j = choose|j: int| 0 <= j < o.stats.unlocked_achievements@.len() && o.stats.unlocked_achievements@[j] == a;
                        assert(self.stats.unlocked_achievements@[j] == a);
                    }
                }
                o.lemma_new_has(6, i - 1);
                let n = o.new_achievements(6);
                let j = choose|j: int| 0 <= j < n.len() && n[j] == a;
                assert(self.stats.unlocked_achievements@[o.stats.unlocked_achievements@.len() + j] == a);
                assert(false);
            }
        }
    }

    /// The achievements among the first `i` of `achievement_order` that are
    /// earned and not yet unlocked, in that order.
    pub open spec fn new_achievements(&self, i: nat) -> Seq<Achievement>
        decreases i,
    {
        if i == 0 {
            Seq::empty()
        } else {
            let a = achievement_order()[i - 1];
            let rest = self.new_achievements((i - 1) as nat);
            if !self.stats.unlocked_achievements@.contains(a) && self.earned(a) {
                rest.push(a)
            } else {
                rest
            }
        }
    }

    pub(crate) fn has_achievement(&self, a: Achievement) -> (r: bool)
        ensures
            r == self.stats.unlocked_achievements@.contains(a),
    {
        let mut i: usize = 0;
        while i < self.stats.unlocked_achievements.len()
            invariant
                i <= self.stats.unlocked_achievements@.len(),
                forall|j: int| 0 <= j < i ==> self.stats.unlocked_achievements@[j] != a,
            decreases self.stats.unlocked_achievements@.len() - i,
        {
            if self.stats.unlocked_achievements[i] == a {
                return true;
            }
            i = i + 1;
        }
        false
    }

    pub(crate) fn earned_now(&self, a: Achievement) -> (r: bool)
        ensures
            r == self.earned(a),
    {
        match a {
            Achievement::FirstBlood => self.stats.games_played > 0,
            Achievement::HighScorer => self.score >= 100,
            Achievement::Rich => self.stats.coins >= 1000,
            Achievement::BotUser => self.used_bot_this_session,
            Achievement::BossSlayer => self.mode == GameMode::BossRush && self.campaign_level > 5,
            Achievement::MassiveMultiplayerEnthusiast => self.mode == GameMode::MassiveMultiplayer,
            Achievement::PoisonEater => false,
        }
    }

    /// Unlocks, in the order of `achievement_order`, every achievement that
    /// has been earned and is not unlocked yet, and asks for the statistics
    /// to be stored when any was. Afterwards none is new, so a second check
    /// changes nothing.
    pub fn check_achievements(&mut self)
        ensures
            final(self).stats.unlocked_achievements@ == old(self).stats.unlocked_achievements@ + old(self).new_achievements(6),
            final(self).effects@ == (if old(self).new_achievements(6).len() > 0 {
                old(self).effects@.push(Effect::SaveStats)
            } else {
                old(self).effects@
            }),
            final(self).stats.games_played == old(self).stats.games_played,
            final(self).stats.coins == old(self).stats.coins,
            final(self).stats.total_score == old(self).stats.total_score,
            final(self).stats.upgrade_extra_lives == old(self).stats.upgrade_extra_lives,
            final(self).snakes_same(*old(self)),
            final(self).board_same(*old(self)),
            final(self).score == old(self).score,
            final(self).state == old(self).state,
            final(self).lives == old(self).lives,
            final(self).high_score == old(self).high_score,
            final(self).high_scores@ == old(self).high_scores@,
            final(self).used_bot_this_session == old(self).used_bot_this_session,
            final(self).just_died == old(self).just_died,
            final(self).width == old(self).width,
            final(self).height == old(self).height,
            final(self).safe_zone_margin == old(self).safe_zone_margin,
            final(self).campaign_level == old(self).campaign_level,
            final(self).mode == old(self).mode,
            final(self).food_eaten_session == old(self).food_eaten_session,
            final(self).combo == old(self).combo,
            final(self).new_achievements(6).len() == 0,
    {
        let order: [Achievement; 6] = [
            Achievement::FirstBlood,
            Achievement::HighScorer,
            Achievement::Rich,
            Achievement::BotUser,
            Achievement::BossSlayer,
            Achievement::MassiveMultiplayerEnthusiast,
        ];
        let mut fresh: Vec<Achievement> = Vec::new();
        let mut i: usize = 0;
        while i < 6
            invariant
                i <= 6,
                order@ == achievement_order(),
                fresh@ == self.new_achievements(i as nat),
            decreases 6 - i,
        {
            let a = order[i];
            if !self.has_achievement(a) && self.earned_now(a) {
                fresh.push(a);
            }
            i = i + 1;
        }
        if fresh.len() > 0 {
            let ghost before = self.stats.unlocked_achievements@;
            let mut j: usize = 0;
            while j < fresh.len()
                invariant
                    j <= fresh@.len(),
                    self.stats.unlocked_achievements@ == before + fresh@.take(j as int),
                    self.stats.games_played == old(self).stats.games_played,
                    self.stats.coins == old(self).stats.coins,
                    self.stats.total_score == old(self).stats.total_score,
                    self.stats.upgrade_extra_lives == old(self).stats.upgrade_extra_lives,
                    self.snakes_same(*old(self)),
                    self.board_same(*old(self)),
                    self.score == old(self).score,
                    self.state == old(self).state,
                    self.lives == old(self).lives,
                    self.high_score == old(self).high_score,
                    self.high_scores@ == old(self).high_scores@,
                    self.used_bot_this_session == old(self).used_bot_this_session,
                    self.just_died == old(self).just_died,
                    self.width == old(self).width,
                    self.height == old(self).height,
                    self.safe_zone_margin == old(self).safe_zone_margin,
                    self.effects@ == old(self).effects@,
                    self.campaign_level == old(self).campaign_level,
                    self.mode == old(self).mode,
                    self.food_eaten_session == old(self).food_eaten_session,
                    self.combo == old(self).combo,
                decreases fresh@.len() - j,
            {
                self.stats.unlocked_achievements.push(fresh[j]);
                j = j + 1;
                assert(self.stats.unlocked_achievements@ =~= before + fresh@.take(j as int));
            }
            assert(fresh@.take(j as int) =~= fresh@);
            self.effects.push(Effect::SaveStats);
        }
        proof {
            if fresh@.len() == 0 {
                assert(self.stats.unlocked_achievements@ =~= old(self).stats.unlocked_achievements@ + old(self).new_achievements(6));
            }
            assert forall|a: Achievement| #[trigger] self.earned(a) == old(self).earned(a) by {}
            self.lemma_none_new(*old(self), 6);
        }
    }
}

/// The obstacles of campaign level `level` (see `campaign_layout`).
#[verifier::opaque]
pub open spec fn level_obstacles(level: u32, w: u16, h: u16) -> Set<Point> {
    campaign_layout(level, w, h)
}

/// The coins earned for `added` points with `m` levels of the coin upgrade:
/// `added * (1 + m / 5)` rounded to the nearest whole coin.
pub open spec fn coins_for(added: int, m: int) -> int {
    (2 * added * (5 + m) + 5) / 10
}

/// The combo after eating at `now` (milliseconds): one more when the last
/// food was eaten less than five seconds before, else a new combo of one.
pub open spec fn next_combo(last: Option<u64>, combo: u32, now: u64) -> int {
    match last {
        Some(t) => if sat_sub(now as int, t as int) < 5000 { combo + 1 } else { 1 },
        None => 1,
    }
}

/// The points for food at difficulty `d`: `base` times the difficulty
/// factor, doubled under the score multiplier, times the combo (at least one).
pub open spec fn food_points(base: int, d: Difficulty, multiplier: bool, combo: int) -> int {
    (if multiplier { 2 * base } else { base }) * spec_score_factor(d) * (if combo >= 1 { combo } else { 1 })
}

/// The cells within two of `c` in both axes that exist in the `u16` range.
#[verifier::spinoff_prover]
pub(crate) fn around(c: Point) -> (r: Vec<Point>)
    ensures
        forall|p: Point| r@.contains(p) <==> near2(p, c),
{
    let mut out: Vec<Point> = Vec::new();
    let x0: u32 = if c.x >= 2 { c.x as u32 - 2 } else { 0 };
    let x1: u32 = if c.x <= u16::MAX - 2 { c.x as u32 + 2 } else { u16::MAX as u32 };
    let y0: u32 = if c.y >= 2 { c.y as u32 - 2 } else { 0 };
    let y1: u32 = if c.y <= u16::MAX - 2 { c.y as u32 + 2 } else { u16::MAX as u32 };
    let mut y = y0;
    while y <= y1
        invariant
            y0 <= y <= y1 + 1,
            x0 <= x1 <= u16::MAX,
            y1 <= u16::MAX,
            x0 == (if c.x >= 2 { c.x - 2 } else { 0 }),
            x1 == (if c.x <= u16::MAX - 2 { c.x + 2 } else { u16::MAX as int }),
            y0 == (if c.y >= 2 { c.y - 2 } else { 0 }),
            y1 == (if c.y <= u16::MAX - 2 { c.y + 2 } else { u16::MAX as int }),
            forall|p: Point| out@.contains(p) <==> (near2(p, c) && p.y < y),
        decreases y1 + 1 - y,
    {
        let mut x = x0;
        assert forall|p: Point| near2(p, c) implies x0 <= p.x <= x1 && y0 <= p.y <= y1 by {}
        while x <= x1
            invariant
                y0 <= y <= y1,
                x0 <= x <= x1 + 1,
                x1 <= u16::MAX,
                y1 <= u16::MAX,
                x0 == (if c.x >= 2 { c.x - 2 } else { 0 }),
                x1 == (if c.x <= u16::MAX - 2 { c.x + 2 } else { u16::MAX as int }),
                y0 == (if c.y >= 2 { c.y - 2 } else { 0 }),
                y1 == (if c.y <= u16::MAX - 2 { c.y + 2 } else { u16::MAX as int }),
                forall|p: Point| out@.contains(p) <==> (near2(p, c) && (p.y < y || (p.y == y && p.x < x))),
            decreases x1 + 1 - x,
        {
            let ghost before = out@;
            let q = Point { x: x as u16, y: y as u16 };
            out.push(q);
            proof {
                assert forall|p: Point| out@.contains(p) <==> (near2(p, c) && (p.y < y || (p.y == y && p.x < x + 1))) by {
                    if out@.contains(p) && p != q {
                        let k = choose|k: int| 0 <= k < out@.len() && out@[k] == p;
                        if k < before.len() {
                            assert(before[k] == p);
                        }
                    }
                    if near2(p, c) && (p.y < y || (p.y == y && p.x < x)) {
                        let k = choose|k: int| 0 <= k < before.len() && before[k] == p;
                        assert(out@[k] == p);
                    }
                    if p == q {
                        assert(out@[before.len() as int] == p);
                    }
                }
            }
            x = x + 1;
        }
        assert forall|p: Point| out@.contains(p) <==> (near2(p, c) && p.y < y + 1) by {
            if near2(p, c) {
                assert(p.x <= x1);
            }
        }
        y = y + 1;
    }
    out
}

impl Game {
    /// Counters are far enough from their limits for one more credit of points.
    pub open spec fn headroom(&self) -> bool {
        &&& self.score <= 0xE000_0000
        &&& self.stats.total_score <= 0xE000_0000
        &&& self.stats.coins <= 0xC000_0000
        &&& self.stats.total_food_eaten <= 0xE000_0000
        &&& self.stats.games_played <= 0xE000_0000
        &&& self.stats.total_time_s <= 0xE000_0000_0000_0000
        &&& self.food_eaten_session <= 0xE000_0000
        &&& self.combo <= 0x1_0000
        &&& self.campaign_level <= 0x1_0000
        &&& self.lives <= 0xE000_0000
    }

    /// Counters are far enough from their limits for a whole tick of play.
    pub open spec fn tick_headroom(&self) -> bool {
        &&& self.score <= 0x4000_0000
        &&& self.stats.total_score <= 0x4000_0000
        &&& self.stats.coins <= 0x4000_0000
        &&& self.stats.total_food_eaten <= 0x4000_0000
        &&& self.stats.games_played <= 0x4000_0000
        &&& self.stats.total_time_s <= 0x4000_0000_0000_0000
        &&& self.food_eaten_session <= 0x4000_0000
        &&& self.combo <= 0xFF00
        &&& self.campaign_level <= 0xFF00
        &&& self.lives <= 0x4000_0000
    }

    /// `self` differs from `o` by at most `n` small steps of the counters:
    /// each step adds at most `0x0400_0000` points, and in all at most
    /// `coins` coins.
    pub open spec fn grown(&self, o: Game, n: int, coins: int) -> bool {
        &&& self.score <= o.score + n * 0x0400_0000
        &&& self.stats.total_score <= o.stats.total_score + n * 0x0400_0000
        &&& self.stats.coins <= o.stats.coins + coins
        &&& self.stats.total_food_eaten <= o.stats.total_food_eaten + n
        &&& self.stats.games_played <= o.stats.games_played + n
        &&& self.stats.total_time_s <= o.stats.total_time_s + n * 0x0100_0000_0000_0000
        &&& self.food_eaten_session <= o.food_eaten_session + n
        &&& self.combo <= o.combo + n
        &&& self.campaign_level <= o.campaign_level + n
        &&& self.lives <= o.lives + n
        &&& self.stats.upgrade_coin_multiplier == o.stats.upgrade_coin_multiplier
    }

    /// The obstacles of the current campaign level.
    pub fn generate_campaign_obstacles(&self) -> (r: PointSet)
        requires
            self.width >= 3,
            self.height >= 3,
        ensures
            r.wf(),
            r.w() == self.width,
            r.h() == self.height,
            r@ == level_obstacles(self.campaign_level, self.width, self.height),
    {
        let r = campaign_obstacles(self.campaign_level, self.width, self.height);
        proof {
            reveal(level_obstacles);
        }
        r
    }

    /// Removes every cell of the first snake from the obstacles.
    pub(crate) fn clear_snake_from_obstacles(&mut self)
        requires
            old(self).wf(),
        ensures
            final(self).wf(),
            forall|p: Point| #[trigger] final(self).obstacles.has(p) == (old(self).obstacles.has(p) && !old(self).snake.cells().contains(p)),
            final(self).snakes_same(*old(self)),
            final(self).progress_same(*old(self)),
            final(self).board_same_but_obstacles(*old(self)),
            final(self).effects@ == old(self).effects@,
    {
        let n = self.snake.body.len();
        let mut i: usize = 0;
        while i < n
            invariant
                self.wf(),
                n == self.snake.cells().len(),
                i <= n,
                self.snakes_same(*old(self)),
                self.progress_same(*old(self)),
                self.board_same_but_obstacles(*old(self)),
                self.effects@ == old(self).effects@,
                forall|p: Point| #[trigger] self.obstacles.has(p) == (old(self).obstacles.has(p) && !self.snake.cells().take(i as int).contains(p)),
            decreases n - i,
        {
            let c = self.snake.body[i];
            self.obstacles.remove(c);
            proof {
                assert forall|p: Point| #[trigger] self.obstacles.has(p) == (old(self).obstacles.has(p) && !self.snake.cells().take(i as int + 1).contains(p)) by {
                    assert(self.snake.cells().take(i as int + 1) =~= self.snake.cells().take(i as int).push(c));
                    let t0 = self.snake.cells().take(i as int);
                    if t0.contains(p) {
                        let k = choose|k: int| 0 <= k < t0.len() && t0[k] == p;
                        assert(self.snake.cells().take(i as int + 1)[k] == p);
                    }
                    let t1 = self.snake.cells().take(i as int + 1);
                    if t1.contains(p) && p != c {
                        let k = choose|k: int| 0 <= k < t1.len() && t1[k] == p;
                        assert(self.snake.cells().take(i as int)[k] == p);
                    }
                    if p == c {
                        assert(self.snake.cells().take(i as int + 1)[i as int] == p);
                    }
                }
            }
            i = i + 1;
        }
        assert(self.snake.cells().take(n as int) =~= self.snake.cells());
    }

    pub(crate) fn bump_combo(&mut self, now: u64)
        requires
            old(self).combo <= 0x1_0000,
        ensures
            final(self).combo == next_combo(old(self).last_food_time, old(self).combo, now),
            final(self).last_food_time == Some(now),
            final(self).snakes_same(*old(self)),
            final(self).board_same(*old(self)),
            final(self).score == old(self).score,
            final(self).difficulty == old(self).difficulty,
            final(self).stats == old(self).stats,
            final(self).food_eaten_session == old(self).food_eaten_session,
            final(self).campaign_level == old(self).campaign_level,
            final(self).lives == old(self).lives,
            final(self).state == old(self).state,
            final(self).effects@ == old(self).effects@,
    {
        self.combo = match self.last_food_time {
            Some(t) => {
                let elapsed = if now >= t { now - t } else { 0 };
                if elapsed < 5000 {
                    self.combo + 1
                } else {
                    1
                }
            },
            None => 1,
        };
        self.last_food_time = Some(now);
    }

    /// Credits `added` points: score, session food count, statistics and the
    /// coins of `coins_for`.
    pub(crate) fn credit(&mut self, added: u32)
        requires
            added <= 0x100_0000,
            old(self).score <= 0xE000_0000,
            old(self).stats.total_score <= 0xE000_0000,
            old(self).stats.coins <= 0xC000_0000,
            old(self).stats.total_food_eaten <= 0xE000_0000,
            old(self).food_eaten_session <= 0xE000_0000,
        ensures
            final(self).score == old(self).score + added,
            final(self).food_eaten_session == old(self).food_eaten_session + 1,
            final(self).stats.total_score == old(self).stats.total_score + added,
            final(self).stats.total_food_eaten == old(self).stats.total_food_eaten + 1,
            final(self).stats.coins == old(self).stats.coins + coins_for(added as int, old(self).stats.upgrade_coin_multiplier as int),
            final(self).stats.games_played == old(self).stats.games_played,
            final(self).stats.unlocked_achievements == old(self).stats.unlocked_achievements,
            final(self).stats.upgrade_coin_multiplier == old(self).stats.upgrade_coin_multiplier,
            final(self).stats.upgrade_extra_lives == old(self).stats.upgrade_extra_lives,
            final(self).stats.total_time_s == old(self).stats.total_time_s,
            final(self).stats.upgrade_powerup_duration == old(self).stats.upgrade_powerup_duration,
            final(self).stats.upgrade_laser_capacity == old(self).stats.upgrade_laser_capacity,
            final(self).snakes_same(*old(self)),
            final(self).board_same(*old(self)),
            final(self).combo == old(self).combo,
            final(self).difficulty == old(self).difficulty,
            final(self).last_food_time == old(self).last_food_time,
            final(self).campaign_level == old(self).campaign_level,
            final(self).lives == old(self).lives,
            final(self).state == old(self).state,
            final(self).effects@ == old(self).effects@,
    {
        let m = self.stats.upgrade_coin_multiplier as u64;
        let a = added as u64;
        assert(a * (5 + m) <= 0x100_0000 * 260) by (nonlinear_arith)
            requires
                a <= 0x100_0000,
                m <= 255,
        ;
        let wide = (2 * (a * (5 + m)) + 5) / 10;
        assert(wide <= 0x4000_0000);
        let coins = wide as u32;
        assert(coins == coins_for(added as int, m as int)) by (nonlinear_arith)
            requires
                coins == wide,
                wide == (2 * (a * (5 + m)) + 5) / 10,
                a == added,
        ;
        self.score = self.score + added;
        self.food_eaten_session = self.food_eaten_session + 1;
        self.stats.total_score = self.stats.total_score + added;
        self.stats.total_food_eaten = self.stats.total_food_eaten + 1;
        self.stats.coins = self.stats.coins + coins;
    }
}

impl Game {
    /// The cells that food may not land on besides the obstacles: the cell
    /// just eaten, the bonus food and the power-up.
    pub open spec fn food_extra(&self, head: Point) -> Seq<Point> {
        let s1 = seq![head];
        let s2 = match self.bonus_food {
            Some((b, _)) => s1.push(b),
            None => s1,
        };
        match self.power_up {
            Some(pu) => s2.push(pu.location),
            None => s2,
        }
    }

    pub(crate) fn food_extra_vec(&self, head: Point) -> (r: Vec<Point>)
        ensures
            r@ == self.food_extra(head),
    {
        let mut v: Vec<Point> = Vec::new();
        v.push(head);
        if let Some((b, _)) = self.bonus_food {
            v.push(b);
        }
        if let Some(pu) = &self.power_up {
            v.push(pu.location);
        }
        v
    }

    /// Whether eating with the session count `session` completes the current
    /// campaign level.
    pub open spec fn levels_up(&self, session: int) -> bool {
        self.mode == GameMode::Campaign && session >= self.campaign_level * 5
    }

    /// The points of `food_points` for the current difficulty and combo.
    pub(crate) fn food_gain(&self, base: u32, is_multiplier: bool) -> (r: u32)
        requires
            base == 1 || base == 5,
            self.combo <= 0x1_0001,
        ensures
            r == food_points(base as int, self.difficulty, is_multiplier, self.combo as int),
            r <= 0x100_0000,
    {
        let diff = self.difficulty.score_factor();
        let b: u32 = if is_multiplier { 2 * base * diff } else { base * diff };
        let c: u32 = if self.combo >= 1 { self.combo } else { 1 };
        assert(b * c <= 100 * 0x1_0001) by (nonlinear_arith)
            requires
                b <= 100,
                c <= 0x1_0001,
        ;
        let added = b * c;
        assert(added == food_points(base as int, self.difficulty, is_multiplier, self.combo as int)) by (nonlinear_arith)
            requires
                added == b * c,
                b == (if is_multiplier { 2 * base * diff } else { base * diff }),
                c == (if self.combo >= 1 { self.combo as int } else { 1 }),
                diff == spec_score_factor(self.difficulty),
        ;
        added
    }

    /// The scoring part of eating the food at `final_head`: particles, the
    /// combo, points, coins, a beep and the campaign level-up.
    #[verifier::rlimit(30)]
    pub(crate) fn score_food(&mut self, final_head: Point, is_multiplier: bool, now: u64)
        requires
            old(self).wf(),
            old(self).headroom(),
        ensures
            final(self).wf(),
            final(self).combo == next_combo(old(self).last_food_time, old(self).combo, now),
            final(self).last_food_time == Some(now),
            final(self).score == old(self).score + food_points(1, old(self).difficulty, is_multiplier, final(self).combo as int),
            final(self).stats.total_score == old(self).stats.total_score + food_points(1, old(self).difficulty, is_multiplier, final(self).combo as int),
            final(self).stats.total_food_eaten == old(self).stats.total_food_eaten + 1,
            final(self).stats.coins == old(self).stats.coins + coins_for(
                food_points(1, old(self).difficulty, is_multiplier, final(self).combo as int),
                old(self).stats.upgrade_coin_multiplier as int,
            ),
            old(self).levels_up(old(self).food_eaten_session + 1) ==> final(self).campaign_level == old(self).campaign_level + 1
                && final(self).food_eaten_session == 0 && forall|p: Point| #[trigger] final(self).obstacles.has(p) == (level_obstacles(
                (old(self).campaign_level + 1) as u32,
                old(self).width,
                old(self).height,
            ).contains(p) && !old(self).snake.cells().contains(p)),
            !old(self).levels_up(old(self).food_eaten_session + 1) ==> final(self).campaign_level == old(self).campaign_level
                && final(self).food_eaten_session == old(self).food_eaten_session + 1 && final(self).obstacles@
                == old(self).obstacles@,
            final(self).effects@ == old(self).effects@.push(Effect::Particles {
                x: final_head.x,
                y: final_head.y,
                count: 8,
                color: Color::Green,
                symbol: '+',
            }).push(Effect::Beep),
            final(self).snakes_same(*old(self)),
            final(self).food == old(self).food,
            final(self).width == old(self).width,
            final(self).height == old(self).height,
            final(self).lives == old(self).lives,
            final(self).state == old(self).state,
            final(self).bonus_food == old(self).bonus_food,
            final(self).poison_food == old(self).poison_food,
            final(self).power_up == old(self).power_up,
            final(self).mines@ == old(self).mines@,
            final(self).boss == old(self).boss,
            final(self).portals == old(self).portals,
            final(self).lasers@ == old(self).lasers@,
            final(self).mode == old(self).mode,
            final(self).safe_zone_margin == old(self).safe_zone_margin,
            final(self).stats.games_played == old(self).stats.games_played,
            final(self).stats.unlocked_achievements == old(self).stats.unlocked_achievements,
            final(self).stats.upgrade_extra_lives == old(self).stats.upgrade_extra_lives,
            final(self).stats.total_time_s == old(self).stats.total_time_s,
            final(self).width == old(self).width,
            final(self).height == old(self).height,
            final(self).stats.upgrade_coin_multiplier == old(self).stats.upgrade_coin_multiplier,
            final(self).stats.upgrade_powerup_duration == old(self).stats.upgrade_powerup_duration,
            final(self).stats.upgrade_laser_capacity == old(self).stats.upgrade_laser_capacity,
    {
        self.effects.push(Effect::Particles { x: final_head.x, y: final_head.y, count: 8, color: Color::Green, symbol: '+' });
        self.bump_combo(now);
        let added = self.food_gain(1, is_multiplier);
        self.credit(added);
        self.effects.push(Effect::Beep);
        self.advance_campaign();
    }

    /// In the campaign, once `5 * level` foods are eaten in the level, the
    /// next level starts with its obstacles (off the snake).
    pub(crate) fn advance_campaign(&mut self)
        requires
            old(self).wf(),
            old(self).campaign_level <= 0x1_0000,
        ensures
            final(self).wf(),
            old(self).levels_up(old(self).food_eaten_session as int) ==> final(self).campaign_level == old(self).campaign_level + 1
                && final(self).food_eaten_session == 0 && forall|p: Point| #[trigger] final(self).obstacles.has(p) == (level_obstacles(
                (old(self).campaign_level + 1) as u32,
                old(self).width,
                old(self).height,
            ).contains(p) && !old(self).snake.cells().contains(p)),
            !old(self).levels_up(old(self).food_eaten_session as int) ==> final(self).campaign_level == old(self).campaign_level
                && final(self).food_eaten_session == old(self).food_eaten_session && final(self).obstacles@
                == old(self).obstacles@,
            final(self).snakes_same(*old(self)),
            final(self).board_same_but_obstacles(*old(self)),
            final(self).score == old(self).score,
            final(self).stats == old(self).stats,
            final(self).combo == old(self).combo,
            final(self).lives == old(self).lives,
            final(self).state == old(self).state,
            final(self).difficulty == old(self).difficulty,
            final(self).last_food_time == old(self).last_food_time,
            final(self).effects@ == old(self).effects@,
    {
        if self.mode == GameMode::Campaign && self.food_eaten_session >= self.campaign_level * 5 {
            self.campaign_level = self.campaign_level + 1;
            self.food_eaten_session = 0;
            self.obstacles = self.generate_campaign_obstacles();
            self.clear_snake_from_obstacles();
        }
    }

    /// Puts new food on a random free cell inside the safe zone, off the
    /// snake, the obstacles, `final_head`, the bonus food and the power-up;
    /// returns `false`, leaving the food where it was, when none is left.
    pub(crate) fn place_food(&mut self, final_head: Point) -> (r: bool)
        requires
            old(self).wf(),
        ensures
            final(self).wf(),
            r ==> inside(final(self).food, old(self).width, old(self).height, old(self).safe_zone_margin) && free_cell(
                final(self).food,
                old(self).snake.cells(),
                old(self).obstacles@,
                Set::empty(),
                old(self).food_extra(final_head),
            ),
            !r ==> final(self).food == old(self).food && forall|p: Point| inside(p, old(self).width, old(self).height, old(self).safe_zone_margin)
                ==> !free_cell(p, old(self).snake.cells(), old(self).obstacles@, Set::empty(), old(self).food_extra(final_head)),
            final(self).snakes_same(*old(self)),
            final(self).progress_same(*old(self)),
            final(self).board_same_but_food(*old(self)),
            final(self).effects@ == old(self).effects@,
    {
        let extra = self.food_extra_vec(final_head);
        let nothing = PointSet::new(self.width, self.height);
        match get_random_empty_point(
            self.width,
            self.height,
            &self.snake,
            &self.obstacles,
            &nothing,
            &extra,
            &mut self.rng,
            self.safe_zone_margin,
        ) {
            Some(p) => {
                self.food = p;
                true
            },
            None => false,
        }
    }

    /// Eats the food at `final_head` at `now` (milliseconds): particles, the
    /// combo, the points of `food_points` with base 1 and their coins, a beep;
    /// in the campaign, every `5 * level` foods start the next level with its
    /// obstacles (off the snake); then new food on a free cell inside the
    /// safe zone. Returns `false`, leaving the food where it was, when no
    /// free cell is left.
    #[verifier::rlimit(40)]
    pub fn process_food_collision_at(&mut self, final_head: Point, is_multiplier: bool, now: u64) -> (r: bool)
        requires
            old(self).wf(),
            old(self).headroom(),
        ensures
            final(self).wf(),
            final(self).combo == next_combo(old(self).last_food_time, old(self).combo, now),
            final(self).last_food_time == Some(now),
            final(self).score == old(self).score + food_points(1, old(self).difficulty, is_multiplier, final(self).combo as int),
            final(self).stats.total_score == old(self).stats.total_score + food_points(1, old(self).difficulty, is_multiplier, final(self).combo as int),
            final(self).stats.total_food_eaten == old(self).stats.total_food_eaten + 1,
            final(self).stats.coins == old(self).stats.coins + coins_for(
                food_points(1, old(self).difficulty, is_multiplier, final(self).combo as int),
                old(self).stats.upgrade_coin_multiplier as int,
            ),
            old(self).levels_up(old(self).food_eaten_session + 1) ==> final(self).campaign_level == old(self).campaign_level + 1
                && final(self).food_eaten_session == 0 && forall|p: Point| #[trigger] final(self).obstacles.has(p) == (level_obstacles(
                (old(self).campaign_level + 1) as u32,
                old(self).width,
                old(self).height,
            ).contains(p) && !old(self).snake.cells().contains(p)),
            !old(self).levels_up(old(self).food_eaten_session + 1) ==> final(self).campaign_level == old(self).campaign_level
                && final(self).food_eaten_session == old(self).food_eaten_session + 1 && final(self).obstacles@
                == old(self).obstacles@,
            r ==> inside(final(self).food, old(self).width, old(self).height, old(self).safe_zone_margin) && free_cell(
                final(self).food,
                old(self).snake.cells(),
                final(self).obstacles@,
                Set::empty(),
                old(self).food_extra(final_head),
            ),
            !r ==> final(self).food == old(self).food && forall|p: Point| inside(p, old(self).width, old(self).height, old(self).safe_zone_margin)
                ==> !free_cell(p, old(self).snake.cells(), final(self).obstacles@, Set::empty(), old(self).food_extra(final_head)),
            final(self).effects@ == old(self).effects@.push(Effect::Particles {
                x: final_head.x,
                y: final_head.y,
                count: 8,
                color: Color::Green,
                symbol: '+',
            }).push(Effect::Beep),
            final(self).snakes_same(*old(self)),
            final(self).lives == old(self).lives,
            final(self).state == old(self).state,
            final(self).bonus_food == old(self).bonus_food,
            final(self).poison_food == old(self).poison_food,
            final(self).power_up == old(self).power_up,
            final(self).mines@ == old(self).mines@,
            final(self).boss == old(self).boss,
            final(self).portals == old(self).portals,
            final(self).lasers@ == old(self).lasers@,
            final(self).mode == old(self).mode,
            final(self).stats.games_played == old(self).stats.games_played,
            final(self).stats.unlocked_achievements == old(self).stats.unlocked_achievements,
            final(self).stats.upgrade_extra_lives == old(self).stats.upgrade_extra_lives,
            final(self).stats.total_time_s == old(self).stats.total_time_s,
            final(self).width == old(self).width,
            final(self).height == old(self).height,
            final(self).stats.upgrade_coin_multiplier == old(self).stats.upgrade_coin_multiplier,
            final(self).stats.upgrade_powerup_duration == old(self).stats.upgrade_powerup_duration,
            final(self).stats.upgrade_laser_capacity == old(self).stats.upgrade_laser_capacity,
    {
        self.score_food(final_head, is_multiplier, now);
        let ghost mid_obstacles = self.obstacles@;
        let placed = self.place_food(final_head);
        proof {
            assert forall|p: Point| #[trigger] self.obstacles.has(p) == mid_obstacles.contains(p) by {
                assert(self.obstacles@.contains(p) == self.obstacles.has(p));
            }
        }
        placed
    }

    /// The food at `final_head` is eaten now, by the system clock: all that
    /// `process_food_collision_at` does, for the time the clock reads.
    pub fn process_food_collision(&mut self, final_head: Point, is_multiplier: bool) -> (r: bool)
        requires
            old(self).wf(),
            old(self).headroom(),
        ensures
            final(self).wf(),
            final(self).stats.total_food_eaten == old(self).stats.total_food_eaten + 1,
            old(self).levels_up(old(self).food_eaten_session + 1) ==> final(self).campaign_level == old(self).campaign_level + 1
                && final(self).food_eaten_session == 0 && forall|p: Point| #[trigger] final(self).obstacles.has(p) == (level_obstacles(
                (old(self).campaign_level + 1) as u32,
                old(self).width,
                old(self).height,
            ).contains(p) && !old(self).snake.cells().contains(p)),
            !old(self).levels_up(old(self).food_eaten_session + 1) ==> final(self).campaign_level == old(self).campaign_level
                && final(self).food_eaten_session == old(self).food_eaten_session + 1 && final(self).obstacles@
                == old(self).obstacles@,
            r ==> inside(final(self).food, old(self).width, old(self).height, old(self).safe_zone_margin) && free_cell(
                final(self).food,
                old(self).snake.cells(),
                final(self).obstacles@,
                Set::empty(),
                old(self).food_extra(final_head),
            ),
            !r ==> final(self).food == old(self).food && forall|p: Point| inside(p, old(self).width, old(self).height, old(self).safe_zone_margin)
                ==> !free_cell(p, old(self).snake.cells(), final(self).obstacles@, Set::empty(), old(self).food_extra(final_head)),
            final(self).effects@ == old(self).effects@.push(Effect::Particles {
                x: final_head.x,
                y: final_head.y,
                count: 8,
                color: Color::Green,
                symbol: '+',
            }).push(Effect::Beep),
            final(self).snakes_same(*old(self)),
            final(self).lives == old(self).lives,
            final(self).state == old(self).state,
            final(self).bonus_food == old(self).bonus_food,
            final(self).poison_food == old(self).poison_food,
            final(self).power_up == old(self).power_up,
            final(self).mines@ == old(self).mines@,
            final(self).boss == old(self).boss,
            final(self).portals == old(self).portals,
            final(self).lasers@ == old(self).lasers@,
            final(self).mode == old(self).mode,
            final(self).stats.games_played == old(self).stats.games_played,
            final(self).stats.unlocked_achievements == old(self).stats.unlocked_achievements,
            final(self).stats.upgrade_extra_lives == old(self).stats.upgrade_extra_lives,
            final(self).stats.total_time_s == old(self).stats.total_time_s,
            final(self).width == old(self).width,
            final(self).height == old(self).height,
            final(self).stats.upgrade_coin_multiplier == old(self).stats.upgrade_coin_multiplier,
            final(self).stats.upgrade_powerup_duration == old(self).stats.upgrade_powerup_duration,
            final(self).stats.upgrade_laser_capacity == old(self).stats.upgrade_laser_capacity,
            exists|now: u64| (final(self).combo == next_combo(old(self).last_food_time, old(self).combo, now))
                && (final(self).last_food_time == Some(now))
                && (final(self).score == old(self).score + food_points(1, old(self).difficulty, is_multiplier, final(self).combo as int))
                && (final(self).stats.total_score == old(self).stats.total_score + food_points(1, old(self).difficulty, is_multiplier, final(self).combo as int))
                && final(self).stats.coins == old(self).stats.coins + coins_for(
                    food_points(1, old(self).difficulty, is_multiplier, final(self).combo as int),
                    old(self).stats.upgrade_coin_multiplier as int,
                ),
    {
        let now = crate::clock::now_millis();
        let r = self.process_food_collision_at(final_head, is_multiplier, now);
        assert(self.last_food_time == Some(now));
        r
    }

    /// Eats the bonus food when it lies at `final_head`, at `now`
    /// (milliseconds): particles, the combo, the points of `food_points`
    /// with base 5 and their coins, the bonus food gone and a beep. Returns
    /// whether it was eaten, which makes the snake grow.
    pub fn check_bonus_food_collision_at(&mut self, final_head: Point, is_multiplier: bool, now: u64) -> (r: bool)
        requires
            old(self).wf(),
            old(self).headroom(),
        ensures
            final(self).wf(),
            r == (old(self).bonus_food matches Some((b, _)) && b == final_head),
            r ==> final(self).combo == next_combo(old(self).last_food_time, old(self).combo, now)
                && final(self).last_food_time == Some(now)
                && final(self).score == old(self).score + food_points(5, old(self).difficulty, is_multiplier, final(self).combo as int)
                && final(self).stats.total_score == old(self).stats.total_score + food_points(5, old(self).difficulty, is_multiplier, final(self).combo as int)
                && final(self).stats.coins == old(self).stats.coins + coins_for(
                    food_points(5, old(self).difficulty, is_multiplier, final(self).combo as int),
                    old(self).stats.upgrade_coin_multiplier as int,
                )
                && final(self).stats.total_food_eaten == old(self).stats.total_food_eaten + 1
                && final(self).food_eaten_session == old(self).food_eaten_session + 1
                && final(self).bonus_food is None
                && final(self).effects@ == old(self).effects@.push(Effect::Particles {
                    x: final_head.x,
                    y: final_head.y,
                    count: 15,
                    color: Color::Magenta,
                    symbol: '\u{2605}',
                }).push(Effect::Beep),
            !r ==> final(self).score == old(self).score && final(self).combo == old(self).combo && final(self).stats
                == old(self).stats && final(self).bonus_food == old(self).bonus_food && final(self).effects@ == old(self).effects@
                && final(self).last_food_time == old(self).last_food_time && final(self).food_eaten_session == old(self).food_eaten_session,
            final(self).snakes_same(*old(self)),
            final(self).food == old(self).food,
            final(self).obstacles@ == old(self).obstacles@,
            final(self).power_up == old(self).power_up,
            final(self).poison_food == old(self).poison_food,
            final(self).lives == old(self).lives,
            final(self).state == old(self).state,
            final(self).campaign_level == old(self).campaign_level,
            final(self).mode == old(self).mode,
            final(self).stats.upgrade_coin_multiplier == old(self).stats.upgrade_coin_multiplier,
            final(self).stats.games_played == old(self).stats.games_played,
            final(self).stats.upgrade_extra_lives == old(self).stats.upgrade_extra_lives,
            final(self).width == old(self).width,
            final(self).height == old(self).height,
            final(self).stats.total_time_s == old(self).stats.total_time_s,
            final(self).stats.upgrade_powerup_duration == old(self).stats.upgrade_powerup_duration,
            final(self).stats.unlocked_achievements == old(self).stats.unlocked_achievements,
            final(self).boss == old(self).boss,
            final(self).lasers@ == old(self).lasers@,
            final(self).portals == old(self).portals,
            final(self).mines@ == old(self).mines@,
    {
        let hit = match self.bonus_food {
            Some((b, _)) => b == final_head,
            None => false,
        };
        if !hit {
            return false;
        }
        self.effects.push(Effect::Particles { x: final_head.x, y: final_head.y, count: 15, color: Color::Magenta, symbol: '\u{2605}' });
        self.bump_combo(now);
        let added = self.food_gain(5, is_multiplier);
        self.credit(added);
        self.bonus_food = None;
        self.effects.push(Effect::Beep);
        true
    }

    /// Eats the poison food when it lies at `final_head`: particles, ten
    /// points lost (down to zero), the tail of `player` (1 or 2) dropped, the
    /// poison gone and a beep.
    pub fn check_poison_food_collision(&mut self, final_head: Point, player: u8)
        requires
            old(self).wf(),
        ensures
            final(self).wf(),
            ({
                let hit = old(self).poison_food matches Some((b, _)) && b == final_head;
                &&& hit ==> final(self).score == sat_sub(old(self).score as int, 10) && final(self).poison_food is None
                    && final(self).effects@ == old(self).effects@.push(Effect::Particles {
                        x: final_head.x,
                        y: final_head.y,
                        count: 15,
                        color: Color::Magenta,
                        symbol: 'X',
                    }).push(Effect::Beep)
                &&& hit && player == 1 ==> final(self).snake.cells() == (if old(self).snake.cells().len() > 1 {
                    old(self).snake.cells().drop_last()
                } else {
                    old(self).snake.cells()
                })
                &&& !(hit && player == 1) ==> final(self).snake.cells() == old(self).snake.cells()
                &&& final(self).player2 is Some == old(self).player2 is Some
                &&& old(self).player2 matches Some(a) ==> final(self).player2 matches Some(b) && b.cells() == (if hit
                    && player == 2 && a.cells().len() > 1 {
                    a.cells().drop_last()
                } else {
                    a.cells()
                }) && b.direction == a.direction && b.direction_queue@ == a.direction_queue@
                &&& !hit ==> final(self).score == old(self).score && final(self).poison_food == old(self).poison_food
                    && final(self).effects@ == old(self).effects@
            }),
            final(self).snake.direction == old(self).snake.direction,
            final(self).snake.direction_queue@ == old(self).snake.direction_queue@,
            final(self).board_same_but_poison(*old(self)),
            final(self).lives == old(self).lives,
            final(self).state == old(self).state,
            final(self).stats == old(self).stats,
            final(self).combo == old(self).combo,
            final(self).food_eaten_session == old(self).food_eaten_session,
            final(self).campaign_level == old(self).campaign_level,
    {
        let hit = match self.poison_food {
            Some((b, _)) => b == final_head,
            None => false,
        };
        if !hit {
            return;
        }
        self.effects.push(Effect::Particles { x: final_head.x, y: final_head.y, count: 15, color: Color::Magenta, symbol: 'X' });
        self.score = self.score.saturating_sub(10);
        if player == 1 {
            self.snake.shrink_tail();
            proof {
                assert forall|i: int| 0 <= i < self.snake.cells().len() implies on_board(#[trigger] self.snake.cells()[i], self.width, self.height) by {
                    assert(self.snake.cells()[i] == old(self).snake.cells()[i]);
                }
            }
        } else if player == 2 {
            match &mut self.player2 {
                Some(p2) => {
                    let ghost before = p2.cells();
                    p2.shrink_tail();
                    proof {
                        assert forall|i: int| 0 <= i < p2.cells().len() implies on_board(#[trigger] p2.cells()[i], self.width, self.height) by {
                            assert(p2.cells()[i] == before[i]);
                        }
                    }
                },
                None => {},
            }
        }
        self.poison_food = None;
        self.effects.push(Effect::Beep);
    }

    /// Outside the fixed-layout modes (campaign, maze, cave, custom level and
    /// the daily challenge), one new obstacle for every five foods eaten since
    /// `old_session`, at random free cells inside the safe zone that are not
    /// within two cells of `final_head`, the food, the bonus food or the
    /// power-up.
    pub fn add_obstacles_if_needed(&mut self, old_food_eaten_session: u32, final_head: Point)
        requires
            old(self).wf(),
        ensures
            final(self).wf(),
            old(self).obstacles@.subset_of(final(self).obstacles@),
            forall|p: Point| #[trigger] final(self).obstacles.has(p) && !old(self).obstacles.has(p) ==> inside(
                p,
                old(self).width,
                old(self).height,
                old(self).safe_zone_margin,
            ),
            forall|p: Point| #[trigger] final(self).obstacles.has(p) && !old(self).obstacles.has(p) ==> !old(self).snake.cells().contains(p),
            forall|p: Point| #[trigger] final(self).obstacles.has(p) && !old(self).obstacles.has(p) ==> !near2(p, final_head),
            forall|p: Point| #[trigger] final(self).obstacles.has(p) && !old(self).obstacles.has(p) ==> !old(self).food_extra(old(self).food).contains(p),
            (old(self).mode == GameMode::Campaign || old(self).mode == GameMode::Maze || old(self).mode == GameMode::Cave
                || old(self).mode == GameMode::CustomLevel || old(self).mode == GameMode::DailyChallenge
                || sat_sub((old(self).food_eaten_session / 5) as int, (old_food_eaten_session / 5) as int) == 0) ==> final(self).obstacles@
                == old(self).obstacles@,
            !(old(self).mode == GameMode::Campaign || old(self).mode == GameMode::Maze || old(self).mode == GameMode::Cave
                || old(self).mode == GameMode::CustomLevel || old(self).mode == GameMode::DailyChallenge) ==> exists|s: Set<Point>|
                #[trigger] s.finite() && s.disjoint(old(self).obstacles@) && final(self).obstacles@ == old(self).obstacles@.union(s)
                && (s.len() == sat_sub((old(self).food_eaten_session / 5) as int, (old_food_eaten_session / 5) as int) || forall|p: Point|
                inside(p, old(self).width, old(self).height, old(self).safe_zone_margin) ==> #[trigger] final(self).obstacles.has(p)
                || old(self).snake.cells().contains(p) || near2(p, final_head) || old(self).food_extra(old(self).food).contains(p)),
            final(self).snakes_same(*old(self)),
            final(self).progress_same(*old(self)),
            final(self).food == old(self).food,
            final(self).board_same_but_obstacles(*old(self)),
            final(self).effects@ == old(self).effects@,
    {
        if self.mode == GameMode::Campaign || self.mode == GameMode::Maze || self.mode == GameMode::Cave
            || self.mode == GameMode::CustomLevel || self.mode == GameMode::DailyChallenge {
            return;
        }
        let new_obs_count = (self.food_eaten_session / 5).saturating_sub(old_food_eaten_session / 5);
        if new_obs_count == 0 {
            proof {
                let e = Set::<Point>::empty();
                assert(e.finite());
                assert(self.obstacles@.union(e) =~= self.obstacles@);
                assert(e.disjoint(self.obstacles@));
            }
        }
        if new_obs_count > 0 {
            let mut extra = around(final_head);
            let fx = self.food_extra_vec(self.food);
            let mut k: usize = 0;
            let ghost e0 = extra@;
            while k < fx.len()
                invariant
                    k <= fx@.len(),
                    extra@ == e0 + fx@.take(k as int),
                decreases fx@.len() - k,
            {
                extra.push(fx[k]);
                k = k + 1;
                assert(extra@ =~= e0 + fx@.take(k as int));
            }
            assert(fx@.take(k as int) =~= fx@);
            proof {
                assert forall|p: Point| extra@.contains(p) <==> (near2(p, final_head) || self.food_extra(self.food).contains(p)) by {
                    if extra@.contains(p) {
                        let i = choose|i: int| 0 <= i < extra@.len() && extra@[i] == p;
                        if i >= e0.len() {
                            assert(fx@[i - e0.len()] == p);
                        } else {
                            assert(e0[i] == p);
                        }
                    }
                    if self.food_extra(self.food).contains(p) {
                        let i = choose|i: int| 0 <= i < fx@.len() && fx@[i] == p;
                        assert(extra@[e0.len() + i] == p);
                    }
                    if near2(p, final_head) {
                        let i = choose|i: int| 0 <= i < e0.len() && e0[i] == p;
                        assert(extra@[i] == p);
                    }
                }
                assert(self.food_extra(self.food)[0] == self.food);
            }
            proof {
                assert(self.food_extra(self.food)[0] == self.food);
            }
            let fresh = generate_obstacles(
                self.width,
                self.height,
                &self.snake,
                &self.obstacles,
                &extra,
                &mut self.rng,
                new_obs_count,
                self.safe_zone_margin,
            );
            let cells = fresh.to_vec();
            let mut j: usize = 0;
            let ghost o0 = self.obstacles@;
            while j < cells.len()
                invariant
                    self.wf(),
                    j <= cells@.len(),
                    self.obstacles@ == o0.union(cells@.take(j as int).to_set()),
                    forall|p: Point| cells@.contains(p) <==> fresh.has(p),
                    forall|p: Point| #[trigger] fresh.has(p) ==> inside(p, self.width, self.height, self.safe_zone_margin)
                        && !self.snake.cells().contains(p) && !extra@.contains(p),
                    forall|p: Point| extra@.contains(p) <==> (near2(p, final_head) || old(self).food_extra(old(self).food).contains(p)),
                    self.snakes_same(*old(self)),
                    self.progress_same(*old(self)),
                    self.food == old(self).food,
                    self.board_same_but_obstacles(*old(self)),
                    self.effects@ == old(self).effects@,
                decreases cells@.len() - j,
            {
                let c = cells[j];
                assert(cells@.contains(c));
                assert(fresh.has(c));
                self.obstacles.insert(c);
                proof {
                    assert(cells@.take(j as int + 1) =~= cells@.take(j as int).push(c));
                    cells@.take(j as int).lemma_push_to_set_commute(c);
                    assert(self.obstacles@ =~= o0.union(cells@.take(j as int + 1).to_set()));
                }
                j = j + 1;
            }
            proof {
                assert(cells@.take(j as int) =~= cells@);
                assert forall|p: Point| cells@.to_set().contains(p) <==> fresh@.contains(p) by {}
                assert(cells@.to_set() =~= fresh@);
                assert(self.obstacles@ =~= o0.union(fresh@));
                assert forall|p: Point| #[trigger] self.obstacles.has(p) && !old(self).obstacles.has(p) implies fresh.has(p) by {
                    assert(self.obstacles@.contains(p));
                    assert(!o0.contains(p));
                    assert(fresh@.contains(p));
                }
                assert(old(self).food_extra(old(self).food) == self.food_extra(self.food));
                assert forall|p: Point| #[trigger] fresh.has(p) implies !old(self).food_extra(old(self).food).contains(p) by {
                    assert(!extra@.contains(p));
                    assert(extra@.contains(p) <==> (near2(p, final_head) || old(self).food_extra(old(self).food).contains(p)));
                }
                assert forall|p: Point| #[trigger] fresh.has(p) implies !near2(p, final_head) by {
                    assert(!extra@.contains(p));
                    assert(extra@.contains(p) <==> (near2(p, final_head) || old(self).food_extra(old(self).food).contains(p)));
                }
                assert(fresh@.disjoint(o0));
                assert(fresh@.finite());
                if fresh@.len() != new_obs_count {
                    assert forall|p: Point| inside(p, old(self).width, old(self).height, old(self).safe_zone_margin) implies #[trigger] self.obstacles.has(
                        p,
                    ) || old(self).snake.cells().contains(p) || near2(p, final_head) || old(self).food_extra(old(self).food).contains(p) by {
                        assert(!free_cell(p, old(self).snake.cells(), o0, fresh@, extra@));
                        assert(self.obstacles@.contains(p) == self.obstacles.has(p));
                    }
                }
            }
        }
    }
}

/// A generation of the game of life never leaves an obstacle on either
/// snake, the food, the bonus or poison food, or the power-up: every cell
/// that holds an obstacle after it is clear of all of them in `g`.
pub proof fn lemma_generation_clear(g: Game, next: Set<Point>)
    requires
        forall|p: Point| #[trigger] next.contains(p) ==> g.life_next(p),
    ensures
        Game::items_clear(g, next),
{
    assert forall|p: Point| #[trigger] next.contains(p) implies {
        &&& !g.snake.cells().contains(p)
        &&& !cells_of(g.player2).contains(p)
        &&& p != g.food
        &&& !(g.bonus_food matches Some((b, _)) && b == p)
        &&& !(g.poison_food matches Some((b, _)) && b == p)
        &&& !(g.power_up matches Some(pu) && pu.location == p)
    } by {
        assert(g.life_next(p));
    }
}

/// The magnet only ever pulls the food one step closer to the head, onto a
/// cell inside the safe zone that holds no obstacle and no part of a snake.
pub proof fn lemma_magnet_target_clear(g: Game)
    ensures
        g.magnet_target() matches Some(p) ==> Game::pull_clear(g, p),
{
    g.lemma_magnet_scan(4);
}

} // verus!
