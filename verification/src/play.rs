use crate::color::Color;
use crate::game::{all_on_board, cells_of, free_cell, get_random_empty_point, inside, level_obstacles, on_board, Effect, Game, HistoryState};
use crate::levels::{in_rect, near};
use crate::rng::{gen_ratio, fresh_rng, rng_from_seed};
use crate::kinds::{spec_obstacle_count, Weather};
use crate::kinds::{spec_is_two_player, GameMode, GameState, Laser, PowerUp, PowerUpType};
use crate::scores::{best_five, record_score, with_score};
use crate::pointset::PointSet;
use crate::snake::{Direction, Point, Snake};
use std::collections::VecDeque;
use vstd::prelude::*;

verus! {

broadcast use vstd::std_specs::vecdeque::group_vec_dequeue_axioms;

/// Power-ups that act once when taken, rather than for a while.
pub open spec fn instant(t: PowerUpType) -> bool {
    t == PowerUpType::ExtraLife || t == PowerUpType::Shrink || t == PowerUpType::ClearObstacles
        || t == PowerUpType::Teleport
}

/// Coordinate `v` moved by `to - from` and wrapped into `1..=dim-2`.
pub open spec fn teleport_coord(v: u16, from: u16, to: u16, dim: u16) -> u16 {
    (((v + to - from - 1) % (dim - 2)) + 1) as u16
}

/// Cell `c` of a snake whose head jumps from `head` to `dest`: moved by the
/// same offset and wrapped into the inside of a `w` by `h` board.
pub open spec fn teleported(c: Point, head: Point, dest: Point, w: u16, h: u16) -> Point {
    Point { x: teleport_coord(c.x, head.x, dest.x, w), y: teleport_coord(c.y, head.y, dest.y, h) }
}

fn teleport_axis(v: u16, from: u16, to: u16, dim: u16) -> (r: u16)
    requires
        3 <= dim < u16::MAX,
        v < dim,
        from < dim,
        to < dim,
    ensures
        r == teleport_coord(v, from, to, dim),
        1 <= r <= dim - 2,
{
    let iw: u32 = (dim - 2) as u32;
    assert(iw * (dim as u32) <= 65532 * 65534) by (nonlinear_arith)
        requires
            iw == dim - 2,
            dim <= 65534,
    ;
    assert(iw * (dim as u32) >= dim) by (nonlinear_arith)
        requires
            iw >= 1,
    ;
    let big: u32 = iw * (dim as u32);
    let t: u32 = v as u32 + to as u32 + big - from as u32 - 1;
    proof {
        vstd::arithmetic::div_mod::lemma_mod_multiples_vanish(dim as int, v + to - from - 1, iw as int);
        assert(t == iw * dim + (v + to - from - 1));
    }
    ((t % iw) + 1) as u16
}

/// The snake's body moved so that its head lands on `dest`, each cell
/// wrapped into the inside of a `w` by `h` board.
fn teleport_body(s: &Snake, dest: Point, w: u16, h: u16) -> (r: Snake)
    requires
        3 <= w < u16::MAX,
        3 <= h < u16::MAX,
        s.cells().len() > 0,
        all_on_board(s.cells(), w, h),
        on_board(dest, w, h),
    ensures
        r.cells().len() == s.cells().len(),
        forall|i: int| 0 <= i < s.cells().len() ==> r.cells()[i] == teleported(s.cells()[i], s.cells()[0], dest, w, h),
        forall|i: int| 0 <= i < r.cells().len() ==> inside(#[trigger] r.cells()[i], w, h, 0),
        r.direction == s.direction,
        r.direction_queue@ == s.direction_queue@,
{
    let head = s.head();
    let mut body: VecDeque<Point> = VecDeque::new();
    let mut i: usize = 0;
    while i < s.body.len()
        invariant
            3 <= w < u16::MAX,
            3 <= h < u16::MAX,
            head == s.cells()[0],
            all_on_board(s.cells(), w, h),
            on_board(dest, w, h),
            on_board(head, w, h),
            i <= s.cells().len(),
            body@.len() == i,
            forall|k: int| 0 <= k < i ==> body@[k] == teleported(s.cells()[k], head, dest, w, h),
            forall|k: int| 0 <= k < i ==> inside(#[trigger] body@[k], w, h, 0),
        decreases s.cells().len() - i,
    {
        let c = s.body[i];
        assert(on_board(s.cells()[i as int], w, h));
        let x = teleport_axis(c.x, head.x, dest.x, w);
        let y = teleport_axis(c.y, head.y, dest.y, h);
        body.push_back(Point { x, y });
        i = i + 1;
    }
    let mut queue: VecDeque<Direction> = VecDeque::new();
    let mut j: usize = 0;
    while j < s.direction_queue.len()
        invariant
            j <= s.direction_queue@.len(),
            queue@ == s.direction_queue@.take(j as int),
        decreases s.direction_queue@.len() - j,
    {
        queue.push_back(s.direction_queue[j]);
        j = j + 1;
        assert(queue@ =~= s.direction_queue@.take(j as int));
    }
    assert(s.direction_queue@.take(j as int) =~= s.direction_queue@);
    Snake { body, direction: s.direction, direction_queue: queue }
}

impl Game {
    /// Whether the power-up lies at `p`.
    pub open spec fn power_up_at(&self, p: Point) -> bool {
        match self.power_up {
            Some(pu) => pu.location == p,
            None => false,
        }
    }

    /// The cells a teleport must not land on besides the obstacles: the food
    /// and the bonus food.
    pub open spec fn teleport_extra(&self) -> Seq<Point> {
        match self.bonus_food {
            Some((b, _)) => seq![self.food, b],
            None => seq![self.food],
        }
    }

    /// Takes the power-up when the head lands on it at `now` (Unix seconds),
    /// with particles and a beep: an extra life, a shorter snake, no more
    /// obstacles, a jump of the whole snake to a random free cell (when one
    /// is left), or, for the timed kinds, the start of its time. A power-up
    /// that acts once and was not running is used up.
    pub fn process_power_up_collision_at(&mut self, final_head: Point, now: u64)
        requires
            old(self).wf(),
            old(self).lives < u32::MAX,
        ensures
            final(self).wf(),
            !old(self).power_up_at(final_head) ==> final(self).snakes_same(*old(self)) && final(self).board_same(*old(self))
                && final(self).progress_same(*old(self)) && final(self).effects@ == old(self).effects@,
            old(self).power_up_at(final_head) ==> ({
                let pu = old(self).power_up->0;
                &&& final(self).effects@ == old(self).effects@.push(Effect::Particles {
                    x: final_head.x,
                    y: final_head.y,
                    count: 20,
                    color: Color::Yellow,
                    symbol: '*',
                }).push(Effect::Beep)
                &&& final(self).lives == old(self).lives + (if pu.p_type == PowerUpType::ExtraLife { 1int } else { 0 })
                &&& pu.p_type == PowerUpType::Shrink ==> final(self).snake.cells() == (if old(self).snake.cells().len() > 1 {
                    old(self).snake.cells().drop_last()
                } else {
                    old(self).snake.cells()
                })
                &&& pu.p_type == PowerUpType::ClearObstacles ==> final(self).obstacles@ == Set::<Point>::empty()
                &&& pu.p_type != PowerUpType::ClearObstacles ==> final(self).obstacles@ == old(self).obstacles@
                &&& pu.p_type == PowerUpType::Teleport ==> (final(self).snake.cells() == old(self).snake.cells() || (
                    final(self).snake.cells().len() == old(self).snake.cells().len() && inside(
                    final(self).snake.cells()[0],
                    old(self).width,
                    old(self).height,
                    old(self).safe_zone_margin,
                ) && !old(self).obstacles.has(final(self).snake.cells()[0]) && !old(self).teleport_extra().contains(
                    final(self).snake.cells()[0],
                ) && !old(self).snake.cells().contains(final(self).snake.cells()[0]) && forall|i: int|
                    0 <= i < old(self).snake.cells().len() ==> final(self).snake.cells()[i] == teleported(
                        old(self).snake.cells()[i],
                        old(self).snake.cells()[0],
                        final(self).snake.cells()[0],
                        old(self).width,
                        old(self).height,
                    )))
                &&& pu.p_type != PowerUpType::Shrink && pu.p_type != PowerUpType::Teleport ==> final(self).snake.cells()
                    == old(self).snake.cells()
                &&& final(self).power_up == (if instant(pu.p_type) {
                    if pu.activation_time is None { None } else { Some(pu) }
                } else {
                    Some(PowerUp { activation_time: Some(now), ..pu })
                })
            }),
            final(self).snake.direction == old(self).snake.direction,
            final(self).snake.direction_queue@ == old(self).snake.direction_queue@,
            final(self).player2 == old(self).player2,
            final(self).food == old(self).food,
            final(self).bonus_food == old(self).bonus_food,
            final(self).poison_food == old(self).poison_food,
            final(self).mines@ == old(self).mines@,
            final(self).boss == old(self).boss,
            final(self).portals == old(self).portals,
            final(self).lasers@ == old(self).lasers@,
            final(self).mode == old(self).mode,
            final(self).width == old(self).width,
            final(self).height == old(self).height,
            final(self).safe_zone_margin == old(self).safe_zone_margin,
            final(self).score == old(self).score,
            final(self).stats == old(self).stats,
            final(self).state == old(self).state,
            final(self).combo == old(self).combo,
            final(self).food_eaten_session == old(self).food_eaten_session,
            final(self).campaign_level == old(self).campaign_level,
            final(self).difficulty == old(self).difficulty,
    {
        let pu = match &self.power_up {
            Some(pu) => *pu,
            None => {
                return;
            },
        };
        if pu.location != final_head {
            return;
        }
        self.effects.push(Effect::Particles { x: final_head.x, y: final_head.y, count: 20, color: Color::Yellow, symbol: '*' });
        if pu.p_type == PowerUpType::ExtraLife {
            self.lives = self.lives + 1;
        } else if pu.p_type == PowerUpType::Shrink {
            let ghost before = self.snake.cells();
            self.snake.shrink_tail();
            proof {
                assert forall|i: int| 0 <= i < self.snake.cells().len() implies on_board(#[trigger] self.snake.cells()[i], self.width, self.height) by {
                    assert(self.snake.cells()[i] == before[i]);
                }
            }
        } else if pu.p_type == PowerUpType::ClearObstacles {
            self.obstacles.clear();
        } else if pu.p_type == PowerUpType::Teleport {
            let mut extra: Vec<Point> = Vec::new();
            extra.push(self.food);
            if let Some((b, _)) = self.bonus_food {
                extra.push(b);
            }
            assert(extra@ == self.teleport_extra());
            let nothing = PointSet::new(self.width, self.height);
            let dest = get_random_empty_point(
                self.width,
                self.height,
                &self.snake,
                &self.obstacles,
                &nothing,
                &extra,
                &mut self.rng,
                self.safe_zone_margin,
            );
            if let Some(d) = dest {
                let moved = teleport_body(&self.snake, d, self.width, self.height);
                proof {
                    assert(moved.cells()[0] == teleported(self.snake.cells()[0], self.snake.cells()[0], d, self.width, self.height));
                    vstd::arithmetic::div_mod::lemma_small_mod((d.x - 1) as nat, (self.width - 2) as nat);
                    vstd::arithmetic::div_mod::lemma_small_mod((d.y - 1) as nat, (self.height - 2) as nat);
                    assert(moved.cells()[0] == d);
                    assert forall|i: int| 0 <= i < moved.cells().len() implies on_board(#[trigger] moved.cells()[i], self.width, self.height) by {
                        assert(inside(moved.cells()[i], self.width, self.height, 0));
                    }
                }
                self.snake = moved;
            }
        } else {
            self.power_up = Some(PowerUp { activation_time: Some(now), ..pu });
        }
        self.effects.push(Effect::Beep);
        if (pu.p_type == PowerUpType::ExtraLife || pu.p_type == PowerUpType::Shrink || pu.p_type == PowerUpType::ClearObstacles
            || pu.p_type == PowerUpType::Teleport) && pu.activation_time.is_none() {
            self.power_up = None;
        }
    }
}

/// The second snake of `g` and `h` are the same (both absent or equal in
/// body, heading and queue).
pub open spec fn second_snakes_same(a: Option<Snake>, b: Option<Snake>) -> bool {
    &&& a is Some == b is Some
    &&& a matches Some(x) ==> b matches Some(y) && x.cells() == y.cells() && x.direction == y.direction
        && x.direction_queue@ == y.direction_queue@
}

/// Whether the saved state `h` holds what `g` would restore.
pub open spec fn snapshot_of(h: HistoryState, g: Game) -> bool {
    &&& h.snake.cells() == g.snake.cells()
    &&& h.snake.direction == g.snake.direction
    &&& h.snake.direction_queue@ == g.snake.direction_queue@
    &&& second_snakes_same(h.player2, g.player2)
    &&& h.food == g.food
    &&& h.obstacles.wf() == g.obstacles.wf() && h.obstacles.w() == g.obstacles.w() && h.obstacles.h() == g.obstacles.h()
    &&& h.obstacles@ == g.obstacles@
    &&& h.score == g.score
    &&& h.bonus_food == g.bonus_food
    &&& h.poison_food == g.poison_food
    &&& h.power_up == g.power_up
    &&& h.lives == g.lives
    &&& h.food_eaten_session == g.food_eaten_session
    &&& h.campaign_level == g.campaign_level
    &&& h.safe_zone_margin == g.safe_zone_margin
    &&& h.last_shrink_time == g.last_shrink_time
    &&& h.last_obstacle_spawn_time == g.last_obstacle_spawn_time
    &&& h.combo == g.combo
    &&& h.last_food_time == g.last_food_time
    &&& h.lasers@ == g.lasers@
    &&& h.boss == g.boss
    &&& h.portals == g.portals
    &&& h.weather == g.weather
    &&& h.lightning_column == g.lightning_column
    &&& h.mines.wf() == g.mines.wf() && h.mines.w() == g.mines.w() && h.mines.h() == g.mines.h()
    &&& h.mines@ == g.mines@
}

/// Whether `a` and `b` agree on everything a step back in time restores.
pub open spec fn same_moment(a: Game, b: Game) -> bool {
    &&& a.snake.cells() == b.snake.cells()
    &&& a.snake.direction == b.snake.direction
    &&& a.snake.direction_queue@ == b.snake.direction_queue@
    &&& second_snakes_same(a.player2, b.player2)
    &&& a.food == b.food
    &&& a.obstacles@ == b.obstacles@
    &&& a.score == b.score
    &&& a.bonus_food == b.bonus_food
    &&& a.poison_food == b.poison_food
    &&& a.power_up == b.power_up
    &&& a.lives == b.lives
    &&& a.food_eaten_session == b.food_eaten_session
    &&& a.campaign_level == b.campaign_level
    &&& a.safe_zone_margin == b.safe_zone_margin
    &&& a.last_shrink_time == b.last_shrink_time
    &&& a.last_obstacle_spawn_time == b.last_obstacle_spawn_time
    &&& a.combo == b.combo
    &&& a.last_food_time == b.last_food_time
    &&& a.lasers@ == b.lasers@
    &&& a.boss == b.boss
    &&& a.portals == b.portals
    &&& a.weather == b.weather
    &&& a.lightning_column == b.lightning_column
    &&& a.mines@ == b.mines@
}

/// Whether the saved state `h` fits a `w` by `hh` board, so that a game of
/// that size can step back to it.
pub open spec fn rewindable(h: HistoryState, w: u16, hh: u16) -> bool {
    &&& h.obstacles.wf() && h.obstacles.w() == w && h.obstacles.h() == hh
    &&& h.mines.wf() && h.mines.w() == w && h.mines.h() == hh
    &&& h.snake.cells().len() > 0 && all_on_board(h.snake.cells(), w, hh)
    &&& h.player2 matches Some(p2) ==> p2.cells().len() > 0 && all_on_board(p2.cells(), w, hh)
    &&& on_board(h.food, w, hh)
    &&& (h.bonus_food matches Some((b, _)) ==> on_board(b, w, hh))
    &&& (h.poison_food matches Some((b, _)) ==> on_board(b, w, hh))
    &&& (h.power_up matches Some(pu) ==> on_board(pu.location, w, hh))
    &&& 2 * h.safe_zone_margin + 3 <= w && 2 * h.safe_zone_margin + 3 <= hh
    &&& h.portals matches Some((a, b)) ==> on_board(a, w, hh) && on_board(b, w, hh)
    &&& h.boss matches Some(bs) ==> on_board(bs.position, w, hh)
    &&& forall|i: int| 0 <= i < h.lasers@.len() ==> on_board(#[trigger] h.lasers@[i].position, w, hh)
}

/// Stepping back in time right after saving the state gives back the state
/// that was saved: a state saved from a valid game can always be stepped
/// back to on a board of its size, and the game it gives agrees with the
/// one saved on everything a step back restores.
pub proof fn lemma_rewind_restores_saved(g0: Game, g1: Game, g2: Game)
    requires
        g1.history@.len() > 0,
        snapshot_of(g1.history@.last(), g0),
        snapshot_of(g1.history@.last(), g2),
    ensures
        same_moment(g2, g0),
        g0.wf() ==> rewindable(g1.history@.last(), g0.width, g0.height),
{
}

pub(crate) fn copy_lasers(v: &Vec<Laser>) -> (r: Vec<Laser>)
    ensures
        r@ == v@,
{
    let mut out: Vec<Laser> = Vec::new();
    let mut i: usize = 0;
    while i < v.len()
        invariant
            i <= v@.len(),
            out@ == v@.take(i as int),
        decreases v@.len() - i,
    {
        out.push(v[i]);
        i = i + 1;
        assert(out@ =~= v@.take(i as int));
    }
    assert(v@.take(i as int) =~= v@);
    out
}

pub(crate) fn copy_second(s: &Option<Snake>) -> (r: Option<Snake>)
    ensures
        second_snakes_same(r, *s),
{
    match s {
        Some(p2) => Some(p2.duplicate()),
        None => None,
    }
}

impl Game {
    /// Saves the state for a later step back in time; the oldest save is
    /// dropped once more than fifty are kept.
    pub fn save_history_state(&mut self)
        requires
            old(self).wf(),
        ensures
            final(self).wf(),
            final(self).history@.len() > 0,
            snapshot_of(final(self).history@.last(), *old(self)),
            final(self).history@ == (if old(self).history@.len() + 1 > 50 {
                old(self).history@.push(final(self).history@.last()).drop_first()
            } else {
                old(self).history@.push(final(self).history@.last())
            }),
            final(self).snakes_same(*old(self)),
            final(self).board_same(*old(self)),
            final(self).score == old(self).score,
            final(self).lives == old(self).lives,
            final(self).stats == old(self).stats,
            final(self).state == old(self).state,
            final(self).effects@ == old(self).effects@,
            final(self).combo == old(self).combo,
            final(self).food_eaten_session == old(self).food_eaten_session,
            final(self).campaign_level == old(self).campaign_level,
            final(self).start_time == old(self).start_time,
            old(self).history@.len() <= 50 ==> final(self).history@.len() <= 50,
            final(self).auto_pilot == old(self).auto_pilot,
            final(self).last_shrink_time == old(self).last_shrink_time,
    {
        let state = HistoryState {
            snake: self.snake.duplicate(),
            player2: copy_second(&self.player2),
            food: self.food,
            obstacles: self.obstacles.duplicate(),
            score: self.score,
            bonus_food: self.bonus_food,
            poison_food: self.poison_food,
            power_up: self.power_up,
            lives: self.lives,
            food_eaten_session: self.food_eaten_session,
            campaign_level: self.campaign_level,
            safe_zone_margin: self.safe_zone_margin,
            last_shrink_time: self.last_shrink_time,
            last_obstacle_spawn_time: self.last_obstacle_spawn_time,
            combo: self.combo,
            last_food_time: self.last_food_time,
            lasers: copy_lasers(&self.lasers),
            boss: self.boss,
            portals: self.portals,
            weather: self.weather,
            lightning_column: self.lightning_column,
            mines: self.mines.duplicate(),
        };
        let ghost h = state;
        self.history.push_back(state);
        let ghost pushed = self.history@;
        assert(pushed.last() == h);
        if self.history.len() > 50 {
            let _ = self.history.pop_front();
            assert(self.history@ =~= pushed.drop_first());
            assert(self.history@.last() == h);
        }
    }

    /// Steps back to the last saved state, if any (see `snapshot_of`); the
    /// save is used up.
    pub fn rewind_time(&mut self)
        requires
            old(self).wf(),
            old(self).history@.len() > 0 ==> rewindable(old(self).history@.last(), old(self).width, old(self).height),
        ensures
            final(self).wf(),
            old(self).history@.len() == 0 ==> final(self).snakes_same(*old(self)) && final(self).board_same(*old(self))
                && final(self).progress_same(*old(self)),
            old(self).history@.len() > 0 ==> snapshot_of(old(self).history@.last(), *final(self))
                && final(self).history@ == old(self).history@.drop_last(),
            final(self).width == old(self).width,
            final(self).height == old(self).height,
            final(self).mode == old(self).mode,
            final(self).state == old(self).state,
            final(self).stats == old(self).stats,
            final(self).effects@ == old(self).effects@,
    {
        if let Some(state) = self.history.pop_back() {
            self.snake = state.snake;
            self.player2 = state.player2;
            self.food = state.food;
            self.obstacles = state.obstacles;
            self.score = state.score;
            self.bonus_food = state.bonus_food;
            self.poison_food = state.poison_food;
            self.power_up = state.power_up;
            self.lives = state.lives;
            self.food_eaten_session = state.food_eaten_session;
            self.campaign_level = state.campaign_level;
            self.safe_zone_margin = state.safe_zone_margin;
            self.last_shrink_time = state.last_shrink_time;
            self.last_obstacle_spawn_time = state.last_obstacle_spawn_time;
            self.combo = state.combo;
            self.last_food_time = state.last_food_time;
            self.lasers = state.lasers;
            self.boss = state.boss;
            self.portals = state.portals;
            self.weather = state.weather;
            self.lightning_column = state.lightning_column;
            self.mines = state.mines;
        }
    }

    /// Records `score` for `name` in the high-score list (see `record_score`)
    /// and asks for the list to be stored.
    pub fn save_high_score(&mut self, name: String, score: u32)
        ensures
            best_five(with_score(old(self).high_scores@, name, score), final(self).high_scores@),
            final(self).effects@ == old(self).effects@.push(Effect::SaveHighScores),
            final(self).snakes_same(*old(self)),
            final(self).board_same(*old(self)),
            final(self).score == old(self).score,
            final(self).high_score == old(self).high_score,
            final(self).lives == old(self).lives,
            final(self).stats == old(self).stats,
            final(self).state == old(self).state,
            final(self).previous_state == old(self).previous_state,
            final(self).just_died == old(self).just_died,
            final(self).used_bot_this_session == old(self).used_bot_this_session,
            final(self).death_message@ == old(self).death_message@,
            final(self).mode == old(self).mode,
    {
        let mut list: Vec<(String, u32)> = Vec::new();
        std::mem::swap(&mut list, &mut self.high_scores);
        self.high_scores = record_score(list, name, score);
        self.effects.push(Effect::SaveHighScores);
    }
}

/// The three cells of a fresh snake whose head is at `(x, y)`, heading up.
pub open spec fn fresh_cells(x: u16, y: u16) -> Seq<Point> {
    seq![Point { x, y }, Point { x, y: (y + 1) as u16 }, Point { x, y: (y + 2) as u16 }]
}

/// Whether `p` is on the column that a fresh snake with head `(x, y)` and
/// the cell above it take.
pub open spec fn spawn_column(p: Point, x: u16, y: u16) -> bool {
    p.x == x && (if y >= 1 { y - 1 } else { 0 }) <= p.y <= y + 2
}

/// Whether a high score of `score` enters the list `l`: the list has room,
/// or `score` beats its last entry.
pub open spec fn qualifies(l: Seq<(String, u32)>, score: u32) -> bool {
    l.len() < 5 || score > l.last().1
}

impl Game {
    /// Where the first snake starts: the middle, or five cells left of it
    /// when two snakes play.
    pub open spec fn start1(&self) -> (u16, u16) {
        if spec_is_two_player(self.mode) {
            ((self.width / 2 - 5) as u16, self.height / 2)
        } else {
            (self.width / 2, self.height / 2)
        }
    }

    /// Where the second snake starts: five cells right of the middle.
    pub open spec fn start2(&self) -> (u16, u16) {
        ((self.width / 2 + 5) as u16, self.height / 2)
    }

    /// Whether `p` must be clear for the snakes to start.
    pub open spec fn spawn_area(&self, p: Point) -> bool {
        spawn_column(p, self.start1().0, self.start1().1) || (spec_is_two_player(self.mode) && spawn_column(
            p,
            self.start2().0,
            self.start2().1,
        ))
    }

    /// Whether the snakes of `self` are the fresh snakes of its mode.
    pub open spec fn fresh_snakes(&self) -> bool {
        &&& self.snake.cells() == fresh_cells(self.start1().0, self.start1().1)
        &&& self.snake.direction == Direction::Up
        &&& self.snake.direction_queue@.len() == 0
        &&& spec_is_two_player(self.mode) ==> (self.player2 matches Some(p2) && p2.cells() == fresh_cells(
            self.start2().0,
            self.start2().1,
        ) && p2.direction == Direction::Up && p2.direction_queue@.len() == 0)
        &&& !spec_is_two_player(self.mode) ==> self.player2 is None
    }

    /// The snakes start over at `now` (milliseconds): fresh snakes for the
    /// mode, no obstacle where they start, and the safe zone reset.
    pub open spec fn respawned(&self, o: Game, now: u64) -> bool {
        &&& self.fresh_snakes()
        &&& forall|p: Point| #[trigger] self.obstacles.has(p) == (o.obstacles.has(p) && !o.spawn_area(p))
        &&& self.safe_zone_margin == 0
        &&& self.last_shrink_time == now
        &&& self.last_obstacle_spawn_time == now
    }

    fn clear_column(&mut self, x: u16, y: u16)
        requires
            old(self).wf(),
        ensures
            final(self).wf(),
            forall|p: Point| #[trigger] final(self).obstacles.has(p) == (old(self).obstacles.has(p) && !spawn_column(p, x, y)),
            final(self).snakes_same(*old(self)),
            final(self).board_same_but_obstacles(*old(self)),
            final(self).progress_same(*old(self)),
            final(self).effects@ == old(self).effects@,
    {
        let y0: u16 = if y >= 1 { y - 1 } else { 0 };
        let y1: u32 = y as u32 + 2;
        let mut yy: u32 = y0 as u32;
        while yy <= y1
            invariant
                self.wf(),
                y0 == (if y >= 1 { y - 1 } else { 0 }),
                y1 == y + 2,
                y0 <= yy <= y1 + 1,
                forall|p: Point| #[trigger] self.obstacles.has(p) == (old(self).obstacles.has(p) && !(p.x == x && y0 <= p.y < yy)),
                self.snakes_same(*old(self)),
                self.board_same_but_obstacles(*old(self)),
                self.progress_same(*old(self)),
                self.effects@ == old(self).effects@,
            decreases y1 + 1 - yy,
        {
            if yy <= u16::MAX as u32 {
                self.obstacles.remove(Point { x, y: yy as u16 });
            }
            yy = yy + 1;
        }
    }

    /// The snakes start over at `now` (milliseconds); see `respawned`.
    pub fn respawn(&mut self, now: u64)
        requires
            old(self).wf(),
        ensures
            final(self).wf(),
            final(self).respawned(*old(self), now),
            final(self).board_same_but_obstacles_and_zone(*old(self)),
            final(self).score == old(self).score,
            final(self).lives == old(self).lives,
            final(self).stats == old(self).stats,
            final(self).state == old(self).state,
            final(self).high_score == old(self).high_score,
            final(self).high_scores@ == old(self).high_scores@,
            final(self).campaign_level == old(self).campaign_level,
            final(self).combo == old(self).combo,
            final(self).food_eaten_session == old(self).food_eaten_session,
            final(self).difficulty == old(self).difficulty,
            final(self).used_bot_this_session == old(self).used_bot_this_session,
            final(self).start_time == old(self).start_time,
            final(self).just_died == old(self).just_died,
            final(self).effects@ == old(self).effects@,
    {
        let start_x = self.width / 2;
        let start_y = self.height / 2;
        if self.mode.is_two_player() {
            self.snake = Snake::new(Point { x: start_x - 5, y: start_y });
            self.player2 = Some(Snake::new(Point { x: start_x + 5, y: start_y }));
            self.clear_column(start_x - 5, start_y);
            self.clear_column(start_x + 5, start_y);
        } else {
            self.snake = Snake::new(Point { x: start_x, y: start_y });
            self.player2 = None;
            self.clear_column(start_x, start_y);
        }
        self.safe_zone_margin = 0;
        self.last_shrink_time = now;
        self.last_obstacle_spawn_time = now;
    }

    /// A snake died of `cause` at `now` (milliseconds): particles at the
    /// head, one life less and a beep. With lives left the snakes start over
    /// (see `respawned`). With none, the game is counted in the statistics
    /// (which are to be stored), achievements are checked, and a score that
    /// qualifies goes to name entry, or straight into the list as "[BOT]"
    /// when the bot played; otherwise the game is over.
    pub fn handle_death(&mut self, cause: &str, now: u64)
        requires
            old(self).wf(),
            old(self).lives > 0,
            old(self).headroom(),
        ensures
            final(self).wf(),
            final(self).lives == old(self).lives - 1,
            final(self).just_died,
            final(self).lives > 0 ==> final(self).respawned(*old(self), now) && final(self).state == old(self).state
                && final(self).stats == old(self).stats && final(self).effects@ == old(self).effects@.push(
                Effect::Particles { x: old(self).snake.cells()[0].x, y: old(self).snake.cells()[0].y, count: 30, color: Color::Red, symbol: 'X' },
            ).push(Effect::Beep),
            final(self).lives == 0 ==> final(self).stats.games_played == old(self).stats.games_played + 1
                && final(self).death_message@ == cause@ && final(self).state == (if qualifies(old(self).high_scores@, old(self).score)
                && old(self).score > 0 {
                if old(self).used_bot_this_session { GameState::GameOver } else { GameState::EnterName }
            } else {
                GameState::GameOver
            }) && (qualifies(old(self).high_scores@, old(self).score) && old(self).score > 0 && old(self).used_bot_this_session
                ==> (exists|n: String| n@ == "[BOT]"@ && #[trigger] best_five(with_score(old(self).high_scores@, n, old(self).score), final(self).high_scores@))),
            final(self).high_score == (if old(self).score > old(self).high_score { old(self).score } else { old(self).high_score }),
            final(self).score == old(self).score,
            final(self).mode == old(self).mode,
            final(self).width == old(self).width,
            final(self).height == old(self).height,
    {
        let head = self.snake.head();
        self.effects.push(Effect::Particles { x: head.x, y: head.y, count: 30, color: Color::Red, symbol: 'X' });
        self.lives = self.lives - 1;
        self.just_died = true;
        self.effects.push(Effect::Beep);
        let ghost mut witness: Option<String> = None;
        if self.lives == 0 {
            self.finish_game(now);
            self.death_message = String::from_str(cause);
            let qualifies = self.high_scores.len() < 5 || self.score > self.high_scores[self.high_scores.len() - 1].1;
            if qualifies && self.score > 0 {
                if self.used_bot_this_session {
                    let bot = String::from_str("[BOT]");
                    proof {
                        witness = Some(bot);
                    }
                    self.save_high_score(bot, self.score);
                    self.state = GameState::GameOver;
                } else {
                    self.state = GameState::EnterName;
                    self.player_name = String::new();
                }
            } else {
                self.state = GameState::GameOver;
            }
            if self.score > self.high_score {
                self.high_score = self.score;
            }
        } else {
            self.respawn(now);
            if self.score > self.high_score {
                self.high_score = self.score;
            }
        }
        proof {
            if let Some(n) = witness {
                assert(best_five(with_score(old(self).high_scores@, n, old(self).score), self.high_scores@));
            }
        }
    }

    /// Counts a finished game in the statistics at `now` (milliseconds),
    /// asks for them to be stored and checks the achievements.
    fn finish_game(&mut self, now: u64)
        requires
            old(self).wf(),
            old(self).headroom(),
        ensures
            final(self).wf(),
            final(self).stats.games_played == old(self).stats.games_played + 1,
            final(self).snakes_same(*old(self)),
            final(self).board_same(*old(self)),
            final(self).score == old(self).score,
            final(self).lives == old(self).lives,
            final(self).state == old(self).state,
            final(self).high_score == old(self).high_score,
            final(self).high_scores@ == old(self).high_scores@,
            final(self).used_bot_this_session == old(self).used_bot_this_session,
            final(self).just_died == old(self).just_died,
            final(self).mode == old(self).mode,
    {
        self.stats.games_played = self.stats.games_played + 1;
        let elapsed = if now >= self.start_time { now - self.start_time } else { 0 };
        self.stats.total_time_s = self.stats.total_time_s + elapsed / 1000;
        self.effects.push(Effect::SaveStats);
        self.check_achievements();
    }

    /// The game is won at `now` (milliseconds): it is counted in the
    /// statistics, achievements are checked, and a score that qualifies goes
    /// to name entry (coming back to the victory screen), or straight into
    /// the list as "[BOT]" when the bot played; otherwise the victory screen.
    pub fn handle_win(&mut self, now: u64)
        requires
            old(self).wf(),
            old(self).headroom(),
        ensures
            final(self).wf(),
            final(self).stats.games_played == old(self).stats.games_played + 1,
            final(self).state == (if qualifies(old(self).high_scores@, old(self).score) && old(self).score > 0
                && !old(self).used_bot_this_session {
                GameState::EnterName
            } else {
                GameState::GameWon
            }),
            qualifies(old(self).high_scores@, old(self).score) && old(self).score > 0 && !old(self).used_bot_this_session
                ==> final(self).previous_state == Some(GameState::GameWon),
            qualifies(old(self).high_scores@, old(self).score) && old(self).score > 0 && old(self).used_bot_this_session
                ==> (exists|n: String| n@ == "[BOT]"@ && #[trigger] best_five(with_score(old(self).high_scores@, n, old(self).score), final(self).high_scores@)),
            final(self).high_score == (if old(self).score > old(self).high_score { old(self).score } else { old(self).high_score }),
            final(self).snakes_same(*old(self)),
            final(self).board_same(*old(self)),
            final(self).score == old(self).score,
            final(self).lives == old(self).lives,
    {
        let ghost mut witness: Option<String> = None;
        self.finish_game(now);
        let qualifies = self.high_scores.len() < 5 || self.score > self.high_scores[self.high_scores.len() - 1].1;
        if qualifies && self.score > 0 {
            if self.used_bot_this_session {
                let bot = String::from_str("[BOT]");
                proof {
                    witness = Some(bot);
                }
                self.save_high_score(bot, self.score);
                self.state = GameState::GameWon;
            } else {
                self.previous_state = Some(GameState::GameWon);
                self.state = GameState::EnterName;
                self.player_name = String::new();
            }
        } else {
            self.state = GameState::GameWon;
        }
        if self.score > self.high_score {
            self.high_score = self.score;
        }
        proof {
            if let Some(n) = witness {
                assert(best_five(with_score(old(self).high_scores@, n, old(self).score), self.high_scores@));
            }
        }
    }
}

/// Modes whose board starts without random obstacles.
pub open spec fn fixed_board(mode: GameMode) -> bool {
    mode == GameMode::Zen || mode == GameMode::Maze || mode == GameMode::Cave || mode == GameMode::Dungeon
}

impl Game {
    /// The cells a fresh board keeps clear of random obstacles: the cell above
    /// each starting head, the snakes, and, when two snakes play, the three
    /// cells from `(1, 1)` down.
    pub open spec fn reset_blocked(&self) -> Seq<Point> {
        let (x1, y1) = self.start1();
        let (x2, y2) = self.start2();
        if spec_is_two_player(self.mode) {
            seq![Point { x: x1, y: (y1 - 1) as u16 }, Point { x: x2, y: (y2 - 1) as u16 }] + cells_of(self.player2)
                + fresh_cells(1, 1)
        } else {
            seq![Point { x: x1, y: (y1 - 1) as u16 }]
        }
    }

    /// Puts the fresh snakes of the mode on the board.
    fn place_fresh_snakes(&mut self)
        requires
            old(self).wf(),
        ensures
            final(self).wf(),
            final(self).fresh_snakes(),
            final(self).board_same(*old(self)),
            final(self).obstacles == old(self).obstacles,
            final(self).progress_same(*old(self)),
            final(self).effects@ == old(self).effects@,
    {
        let start_x = self.width / 2;
        let start_y = self.height / 2;
        if self.mode.is_two_player() {
            self.snake = Snake::new(Point { x: start_x - 5, y: start_y });
            self.player2 = Some(Snake::new(Point { x: start_x + 5, y: start_y }));
        } else {
            self.snake = Snake::new(Point { x: start_x, y: start_y });
            self.player2 = None;
        }
    }

    /// The board of a reset in a mode without a fixed layout: `count` random
    /// obstacles, inside the walls and off the snakes and the cells of
    /// `reset_blocked`, or fewer when they fill every such cell.
    fn random_reset_obstacles(&mut self, count: u32)
        requires
            old(self).wf(),
            old(self).fresh_snakes(),
        ensures
            final(self).wf(),
            final(self).obstacles@.finite(),
            final(self).obstacles@.len() <= count,
            forall|p: Point| #[trigger] final(self).obstacles.has(p) ==> inside(p, old(self).width, old(self).height, 0)
                && !old(self).snake.cells().contains(p) && !old(self).reset_blocked().contains(p),
            final(self).obstacles@.len() == count || forall|p: Point| inside(p, old(self).width, old(self).height, 0)
                && !old(self).snake.cells().contains(p) && !old(self).reset_blocked().contains(p) ==> #[trigger] final(self).obstacles.has(p),
            final(self).snakes_same(*old(self)),
            final(self).progress_same(*old(self)),
            final(self).board_same_but_obstacles(*old(self)),
            final(self).effects@ == old(self).effects@,
    {
        let start_x = self.width / 2;
        let start_y = self.height / 2;
        let mut extra: Vec<Point> = Vec::new();
        let two = self.mode.is_two_player();
        let reference = if two {
            extra.push(Point { x: start_x - 5, y: start_y - 1 });
            extra.push(Point { x: start_x + 5, y: start_y - 1 });
            match &self.player2 {
                Some(p2) => {
                    let mut i: usize = 0;
                    let ghost e0 = extra@;
                    while i < p2.body.len()
                        invariant
                            i <= p2.cells().len(),
                            extra@ == e0 + p2.cells().take(i as int),
                        decreases p2.cells().len() - i,
                    {
                        extra.push(p2.body[i]);
                        i = i + 1;
                        assert(extra@ =~= e0 + p2.cells().take(i as int));
                    }
                    assert(p2.cells().take(i as int) =~= p2.cells());
                },
                None => {},
            }
            let r = Snake::new(Point { x: 1, y: 1 });
            let ghost e1 = extra@;
            extra.push(Point { x: 1, y: 1 });
            extra.push(Point { x: 1, y: 2 });
            extra.push(Point { x: 1, y: 3 });
            assert(extra@ =~= e1 + fresh_cells(1, 1));
            r
        } else {
            extra.push(Point { x: start_x, y: start_y - 1 });
            self.snake.duplicate()
        };
        proof {
            assert(extra@ =~= self.reset_blocked() || !two);
        }
        let mut blocked = PointSet::new(self.width, self.height);
        let mut k: usize = 0;
        while k < self.snake.body.len()
            invariant
                self.wf(),
                k <= self.snake.cells().len(),
                blocked.wf(),
                blocked.w() == self.width,
                blocked.h() == self.height,
                forall|p: Point| #[trigger] blocked.has(p) == self.snake.cells().take(k as int).contains(p),
            decreases self.snake.cells().len() - k,
        {
            let c = self.snake.body[k];
            assert(on_board(self.snake.cells()[k as int], self.width, self.height));
            blocked.insert(c);
            proof {
                assert forall|p: Point| #[trigger] blocked.has(p) == self.snake.cells().take(k as int + 1).contains(p) by {
                    let t0 = self.snake.cells().take(k as int);
                    let t1 = self.snake.cells().take(k as int + 1);
                    if t0.contains(p) {
                        let j = choose|j: int| 0 <= j < t0.len() && t0[j] == p;
                        assert(t1[j] == p);
                    }
                    if t1.contains(p) && p != c {
                        let j = choose|j: int| 0 <= j < t1.len() && t1[j] == p;
                        assert(t0[j] == p);
                    }
                    if p == c {
                        assert(t1[k as int] == p);
                    }
                }
            }
            k = k + 1;
        }
        assert(self.snake.cells().take(k as int) =~= self.snake.cells());
        let obstacles = crate::game::generate_obstacles(
            self.width,
            self.height,
            &reference,
            &blocked,
            &extra,
            &mut self.rng,
            count,
            0,
        );
        proof {
            assert forall|p: Point| #[trigger] obstacles.has(p) implies !self.snake.cells().contains(p) && !self.reset_blocked().contains(p) by {
                assert(!blocked.has(p));
                if !two {
                    assert(extra@ == seq![Point { x: start_x, y: (start_y - 1) as u16 }]);
                    assert(self.reset_blocked() == extra@);
                } else {
                    assert(self.reset_blocked() == extra@);
                }
            }
            assert(self.reset_blocked() == extra@);
            if obstacles@.len() != count {
                assert forall|p: Point| inside(p, self.width, self.height, 0) && !self.snake.cells().contains(p)
                    && !self.reset_blocked().contains(p) implies #[trigger] obstacles.has(p) by {
                    assert(!free_cell(p, reference.cells(), blocked@, obstacles@, extra@));
                    if !two {
                        assert(reference.cells() == self.snake.cells());
                    } else {
                        assert(reference.cells() == fresh_cells(1, 1));
                        if reference.cells().contains(p) {
                            let j = choose|j: int| 0 <= j < reference.cells().len() && reference.cells()[j] == p;
                            assert(extra@[extra@.len() - 3 + j] == p);
                        }
                    }
                    assert(!blocked.has(p));
                    assert(obstacles@.contains(p));
                }
            }
        }
        self.obstacles = obstacles;
    }
}

impl Game {
    /// Whether the board is full: no cell inside the walls is free of the
    /// obstacles, both snakes and, when two snakes play, the three cells from
    /// `(1, 1)` down.
    pub open spec fn no_room_for_food(&self) -> bool {
        forall|p: Point| inside(p, self.width, self.height, 0) ==> !free_cell(
            p,
            self.snake.cells(),
            self.obstacles@,
            Set::empty(),
            self.food_blockers(),
        )
    }

    /// The cells besides the obstacles and the first snake that food may not
    /// take after a reset.
    pub open spec fn food_blockers(&self) -> Seq<Point> {
        if spec_is_two_player(self.mode) {
            cells_of(self.player2) + fresh_cells(1, 1)
        } else {
            cells_of(self.player2)
        }
    }

    /// The obstacles a reset leaves, mode by mode (`o` is the game before).
    pub open spec fn reset_obstacles_ok(&self, o: Game, custom_level: Seq<Point>) -> bool {
        let w = self.width;
        let h = self.height;
        if self.mode == GameMode::CustomLevel {
            forall|p: Point| #[trigger] self.obstacles.has(p) == (custom_level.contains(p) && on_board(p, w, h)
                && !self.snake.cells().contains(p))
        } else if self.mode == GameMode::Campaign {
            forall|p: Point| !#[trigger] self.obstacles.has(p)
        } else if self.mode == GameMode::Maze || self.mode == GameMode::Dungeon || self.mode == GameMode::Cave {
            &&& forall|p: Point| #[trigger] self.obstacles.has(p) ==> in_rect(p, 1, w - 2, 1, h - 2) && !self.snake.cells().contains(p)
            &&& forall|p: Point| near(p, w / 2, h / 2, if self.mode == GameMode::Cave { 3 } else { 2 }) && in_rect(p, 1, w - 2, 1, h - 2)
                ==> !#[trigger] self.obstacles.has(p)
        } else if self.mode == GameMode::Evolution {
            &&& forall|p: Point| #[trigger] self.obstacles.has(p) ==> (o.obstacles.has(p) || inside(p, w, h, 0)) && !self.snake.cells().contains(p)
            &&& forall|p: Point| o.obstacles.has(p) && !self.snake.cells().contains(p) ==> #[trigger] self.obstacles.has(p)
        } else {
            &&& self.obstacles@.finite()
            &&& self.obstacles@.len() <= (if fixed_board(self.mode) { 0 } else { spec_obstacle_count(self.difficulty) })
            &&& forall|p: Point| #[trigger] self.obstacles.has(p) ==> inside(p, w, h, 0) && !self.snake.cells().contains(p)
                && !self.reset_blocked().contains(p)
            &&& (self.obstacles@.len() == (if fixed_board(self.mode) { 0 } else { spec_obstacle_count(self.difficulty) })
                || forall|p: Point| inside(p, w, h, 0) && !self.snake.cells().contains(p) && !self.reset_blocked().contains(p)
                ==> #[trigger] self.obstacles.has(p))
        }
    }

    /// What a reset at `now` (milliseconds) with the custom level
    /// `custom_level` leaves of the game `o`: see `reset_at`.
    pub open spec fn reset_outcome(&self, o: Game, now: u64, custom_level: Seq<Point>) -> bool {
        &&& self.fresh_snakes()
        &&& self.mode == o.mode
        &&& self.width == o.width
        &&& self.height == o.height
        &&& self.difficulty == o.difficulty
        &&& self.wrap_mode == o.wrap_mode
        &&& self.campaign_level == (if o.mode == GameMode::Campaign || o.mode == GameMode::BossRush {
            1
        } else {
            o.campaign_level
        })
        &&& self.reset_obstacles_ok(o, custom_level)
        &&& (self.no_room_for_food() || (inside(self.food, self.width, self.height, 0) && free_cell(
            self.food,
            self.snake.cells(),
            self.obstacles@,
            Set::empty(),
            self.food_blockers(),
        )))
        &&& (!spec_is_two_player(o.mode) && o.mode != GameMode::CustomLevel && o.mode != GameMode::Evolution
            ==> !self.no_room_for_food())
        &&& self.bonus_food is None
        &&& self.poison_food is None
        &&& self.power_up is None
        &&& self.score == 0
        &&& self.lives == 3 + o.stats.upgrade_extra_lives
        &&& self.stats == o.stats
        &&& self.state == GameState::Playing
        &&& !self.just_died
        &&& self.start_time == now
        &&& self.food_eaten_session == 0
        &&& self.auto_pilot == (o.mode == GameMode::MassiveMultiplayer)
        &&& !self.used_bot_this_session
        &&& self.safe_zone_margin == 0
        &&& self.last_shrink_time == now
        &&& self.last_obstacle_spawn_time == now
        &&& self.history@.len() == 0
        &&& self.combo == 0
        &&& self.last_food_time is None
        &&& self.chat_log@.len() == (if o.mode == GameMode::MassiveMultiplayer { 1int } else { 0 })
        &&& (o.mode == GameMode::MassiveMultiplayer ==> self.chat_log@[0].0@ == "SYSTEM: Simulating 100 bots entering the arena..."@
            && self.chat_log@[0].1 == Color::Magenta)
        &&& self.last_chat_time is None
        &&& self.boss is None
        &&& self.portals is None
        &&& self.lasers@ == o.lasers@
        &&& self.weather == Weather::Clear
        &&& self.lightning_column is None
        &&& self.mines@ == Set::<Point>::empty()
        &&& self.effects@.len() == 0
        &&& self.high_scores@ == o.high_scores@
        &&& self.high_score == o.high_score
    }

    /// Starts a new game in the current mode at `now` (milliseconds), the
    /// custom level (for that mode) being `custom_level`: the campaign and
    /// boss rush back at level 1, fresh snakes, a new random generator (seeded
    /// by the day for the daily challenge), the mode's obstacles (see
    /// `reset_obstacles_ok`), food on a free cell inside the walls, and every
    /// counter, item, timer and effect of the last game cleared; the massive
    /// multiplayer mode starts on autopilot with a line in the chat. When the
    /// board has no free cell left for the food, the food stays where it was;
    /// with one snake, outside the custom level and Evolution, the cell just
    /// above the head is always left free, so food is always placed.
    #[verifier::rlimit(100)]
    pub fn reset_at(&mut self, now: u64, custom_level: &Vec<Point>)
        requires
            old(self).wf(),
        ensures
            final(self).wf(),
            final(self).reset_outcome(*old(self), now, custom_level@),
    {
        if self.mode == GameMode::Campaign || self.mode == GameMode::BossRush {
            self.campaign_level = 1;
        }
        self.place_fresh_snakes();
        let obs_count: u32 = if self.mode == GameMode::Zen || self.mode == GameMode::Maze || self.mode == GameMode::Cave
            || self.mode == GameMode::Dungeon {
            0
        } else {
            self.difficulty.obstacle_count()
        };
        if self.mode == GameMode::DailyChallenge {
            self.rng = rng_from_seed(now / 1000 / 86400);
        } else {
            self.rng = fresh_rng(now);
        }
        if self.mode == GameMode::CustomLevel {
            let mut level = PointSet::new(self.width, self.height);
            let mut i: usize = 0;
            while i < custom_level.len()
                invariant
                    i <= custom_level@.len(),
                    level.wf(),
                    level.w() == self.width,
                    level.h() == self.height,
                    forall|p: Point| #[trigger] level.has(p) == (custom_level@.take(i as int).contains(p) && on_board(p, self.width, self.height)),
                decreases custom_level@.len() - i,
            {
                let c = custom_level[i];
                if c.x < self.width && c.y < self.height {
                    level.insert(c);
                }
                proof {
                    assert forall|p: Point| #[trigger] level.has(p) == (custom_level@.take(i as int + 1).contains(p) && on_board(p, self.width, self.height)) by {
                        let t0 = custom_level@.take(i as int);
                        let t1 = custom_level@.take(i as int + 1);
                        if t0.contains(p) {
                            let j = choose|j: int| 0 <= j < t0.len() && t0[j] == p;
                            assert(t1[j] == p);
                        }
                        if t1.contains(p) && p != c {
                            let j = choose|j: int| 0 <= j < t1.len() && t1[j] == p;
                            assert(t0[j] == p);
                        }
                        if p == c {
                            assert(t1[i as int] == p);
                        }
                    }
                }
                i = i + 1;
            }
            assert(custom_level@.take(i as int) =~= custom_level@);
            self.obstacles = level;
            self.clear_snake_from_obstacles();
        } else if self.mode == GameMode::Campaign {
            self.obstacles = self.generate_campaign_obstacles();
            proof {
                reveal(level_obstacles);
                assert(crate::levels::campaign_layout(1, self.width, self.height) =~= Set::<Point>::empty());
                assert forall|p: Point| !#[trigger] self.obstacles.has(p) by {
                    assert(!self.obstacles@.contains(p));
                }
            }
            self.clear_snake_from_obstacles();
        } else if self.mode == GameMode::Maze {
            self.obstacles = Self::generate_maze_obstacles(self.width, self.height, &mut self.rng);
            self.clear_snake_from_obstacles();
        } else if self.mode == GameMode::Cave {
            self.obstacles = Self::generate_cave_obstacles(self.width, self.height, &mut self.rng);
            self.clear_snake_from_obstacles();
        } else if self.mode == GameMode::Dungeon {
            self.obstacles = Self::generate_dungeon_obstacles(self.width, self.height, &mut self.rng);
            self.clear_snake_from_obstacles();
        } else if self.mode == GameMode::Evolution {
            self.seed_noise();
            self.clear_snake_from_obstacles();
        } else {
            self.random_reset_obstacles(obs_count);
        }
        assert(self.reset_obstacles_ok(*old(self), custom_level@));
        self.place_reset_food();
        self.bonus_food = None;
        self.poison_food = None;
        self.power_up = None;
        self.score = 0;
        self.lives = 3 + self.stats.upgrade_extra_lives as u32;
        self.state = GameState::Playing;
        self.just_died = false;
        self.start_time = now;
        self.food_eaten_session = 0;
        self.auto_pilot = false;
        self.used_bot_this_session = false;
        self.safe_zone_margin = 0;
        self.last_shrink_time = now;
        self.last_obstacle_spawn_time = now;
        self.history = VecDeque::new();
        self.effects = Vec::new();
        self.combo = 0;
        self.last_food_time = None;
        self.chat_log = VecDeque::new();
        if self.mode == GameMode::MassiveMultiplayer {
            self.auto_pilot = true;
            self.chat_log.push_back((String::from_str("SYSTEM: Simulating 100 bots entering the arena..."), Color::Magenta));
        }
        self.last_chat_time = None;
        self.boss = None;
        self.portals = None;
        self.weather = Weather::Clear;
        self.lightning_column = None;
        self.mines = PointSet::new(self.width, self.height);
        proof {
            if !spec_is_two_player(self.mode) && self.mode != GameMode::CustomLevel && self.mode != GameMode::Evolution {
                let a = Point { x: self.width / 2, y: (self.height / 2 - 1) as u16 };
                assert(inside(a, self.width, self.height, 0));
                assert(!self.snake.cells().contains(a)) by {
                    if self.snake.cells().contains(a) {
                        let k = choose|k: int| 0 <= k < self.snake.cells().len() && self.snake.cells()[k] == a;
                        assert(self.snake.cells()[k] == a);
                    }
                }
                assert(!self.obstacles.has(a)) by {
                    if self.mode == GameMode::Maze || self.mode == GameMode::Dungeon || self.mode == GameMode::Cave {
                        assert(near(a, self.width / 2, self.height / 2, if self.mode == GameMode::Cave { 3 } else { 2 }));
                    } else if self.mode != GameMode::Campaign {
                        assert(self.reset_blocked()[0] == a);
                    }
                }
                assert(!self.obstacles@.contains(a));
                assert(self.food_blockers() =~= Seq::<Point>::empty());
                assert(free_cell(a, self.snake.cells(), self.obstacles@, Set::empty(), self.food_blockers()));
            }
        }
    }

    /// Each cell inside the walls becomes an obstacle with chance one in five,
    /// on top of the obstacles already there.
    fn seed_noise(&mut self)
        requires
            old(self).wf(),
        ensures
            final(self).wf(),
            forall|p: Point| #[trigger] final(self).obstacles.has(p) ==> old(self).obstacles.has(p) || inside(p, old(self).width, old(self).height, 0),
            forall|p: Point| old(self).obstacles.has(p) ==> #[trigger] final(self).obstacles.has(p),
            final(self).snakes_same(*old(self)),
            final(self).progress_same(*old(self)),
            final(self).board_same_but_obstacles(*old(self)),
            final(self).effects@ == old(self).effects@,
    {
        let mut y: u16 = 1;
        while y < self.height - 1
            invariant
                self.wf(),
                1 <= y <= self.height - 1,
                forall|p: Point| #[trigger] self.obstacles.has(p) ==> old(self).obstacles.has(p) || inside(p, old(self).width, old(self).height, 0),
                forall|p: Point| old(self).obstacles.has(p) ==> #[trigger] self.obstacles.has(p),
                self.snakes_same(*old(self)),
                self.progress_same(*old(self)),
                self.board_same_but_obstacles(*old(self)),
                self.effects@ == old(self).effects@,
            decreases self.height - y,
        {
            let mut x: u16 = 1;
            while x < self.width - 1
                invariant
                    self.wf(),
                    1 <= y < self.height - 1,
                    1 <= x <= self.width - 1,
                    forall|p: Point| #[trigger] self.obstacles.has(p) ==> old(self).obstacles.has(p) || inside(p, old(self).width, old(self).height, 0),
                    forall|p: Point| old(self).obstacles.has(p) ==> #[trigger] self.obstacles.has(p),
                    self.snakes_same(*old(self)),
                    self.progress_same(*old(self)),
                    self.board_same_but_obstacles(*old(self)),
                    self.effects@ == old(self).effects@,
                decreases self.width - x,
            {
                if gen_ratio(&mut self.rng, 1, 5) {
                    self.obstacles.insert(Point { x, y });
                }
                x = x + 1;
            }
            y = y + 1;
        }
    }

    /// Puts the food of a reset on a random free cell inside the walls (see
    /// `food_blockers`); the food stays where it was when none is left.
    fn place_reset_food(&mut self)
        requires
            old(self).wf(),
        ensures
            final(self).wf(),
            final(self).no_room_for_food() || (inside(final(self).food, final(self).width, final(self).height, 0) && free_cell(
                final(self).food,
                final(self).snake.cells(),
                final(self).obstacles@,
                Set::empty(),
                final(self).food_blockers(),
            )),
            final(self).snakes_same(*old(self)),
            final(self).progress_same(*old(self)),
            final(self).board_same_but_food(*old(self)),
            final(self).obstacles == old(self).obstacles,
            final(self).effects@ == old(self).effects@,
    {
        let mut extra: Vec<Point> = Vec::new();
        match &self.player2 {
            Some(p2) => {
                let mut i: usize = 0;
                while i < p2.body.len()
                    invariant
                        i <= p2.cells().len(),
                        extra@ == p2.cells().take(i as int),
                    decreases p2.cells().len() - i,
                {
                    extra.push(p2.body[i]);
                    i = i + 1;
                    assert(extra@ =~= p2.cells().take(i as int));
                }
                assert(p2.cells().take(i as int) =~= p2.cells());
            },
            None => {},
        }
        if self.mode.is_two_player() {
            let ghost e0 = extra@;
            extra.push(Point { x: 1, y: 1 });
            extra.push(Point { x: 1, y: 2 });
            extra.push(Point { x: 1, y: 3 });
            assert(extra@ =~= e0 + fresh_cells(1, 1));
        }
        assert(extra@ == self.food_blockers());
        let nothing = PointSet::new(self.width, self.height);
        match get_random_empty_point(self.width, self.height, &self.snake, &self.obstacles, &nothing, &extra, &mut self.rng, 0) {
            Some(p) => {
                self.food = p;
            },
            None => {},
        }
    }

    /// Starts a new game in the current mode now, by the system clock, with
    /// `custom_level` as the custom level; see `reset_at`.
    pub fn reset_with_level(&mut self, custom_level: &Vec<Point>)
        requires
            old(self).wf(),
        ensures
            final(self).wf(),
            final(self).fresh_snakes(),
            final(self).mode == old(self).mode,
            final(self).reset_obstacles_ok(*old(self), custom_level@),
            final(self).no_room_for_food() || (inside(final(self).food, final(self).width, final(self).height, 0) && free_cell(
                final(self).food,
                final(self).snake.cells(),
                final(self).obstacles@,
                Set::empty(),
                final(self).food_blockers(),
            )),
            final(self).bonus_food is None,
            final(self).poison_food is None,
            final(self).power_up is None,
            final(self).score == 0,
            final(self).lives == 3 + old(self).stats.upgrade_extra_lives,
            final(self).state == GameState::Playing,
            final(self).auto_pilot == (old(self).mode == GameMode::MassiveMultiplayer),
            !final(self).used_bot_this_session,
            exists|now: u64| #[trigger] final(self).reset_outcome(*old(self), now, custom_level@),
    {
        let now = crate::clock::now_millis();
        self.reset_at(now, custom_level);
    }

    /// Starts a new game in the current mode now, with no custom level (the
    /// front end reads it and calls `reset_with_level`): all that `reset_at`
    /// does, for the time the clock reads.
    pub fn reset(&mut self)
        requires
            old(self).wf(),
        ensures
            final(self).wf(),
            final(self).fresh_snakes(),
            final(self).mode == old(self).mode,
            final(self).bonus_food is None,
            final(self).poison_food is None,
            final(self).power_up is None,
            final(self).score == 0,
            final(self).lives == 3 + old(self).stats.upgrade_extra_lives,
            final(self).state == GameState::Playing,
            final(self).auto_pilot == (old(self).mode == GameMode::MassiveMultiplayer),
            !final(self).used_bot_this_session,
            exists|now: u64| #[trigger] final(self).reset_outcome(*old(self), now, Seq::<Point>::empty()),
    {
        let none: Vec<Point> = Vec::new();
        assert(none@ =~= Seq::<Point>::empty());
        self.reset_with_level(&none);
    }
}

} // verus!
