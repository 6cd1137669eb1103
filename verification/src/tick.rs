use crate::color::Color;
use crate::game::{dir_at, get_random_empty_point, inside, on_board, sat_sub, vec_contains, Effect, Game};
use crate::kinds::{spec_is_two_player, Boss, BossType, GameMode, Laser, PowerUp, PowerUpType, Weather};
use crate::pointset::PointSet;
use crate::rng::{gen_range_u16, gen_range_u32, gen_range_usize, gen_ratio};
use crate::snake::{spec_step, Direction, Point};
use vstd::prelude::*;

verus! {

/// The modes in which a boss may appear.
pub open spec fn boss_mode(mode: GameMode) -> bool {
    mode == GameMode::BossRush || mode == GameMode::SinglePlayer || mode == GameMode::DailyChallenge
}

/// Whether the effects `e` extend `e0`.
pub open spec fn effects_extend(e0: Seq<Effect>, e: Seq<Effect>) -> bool {
    e.len() >= e0.len() && e.subrange(0, e0.len() as int) == e0
}

impl Game {
    /// The board of `self` and `o` is the same but for the boss and the lasers.
    pub open spec fn board_same_but_boss_and_lasers(&self, o: Game) -> bool {
        &&& self.width == o.width
        &&& self.height == o.height
        &&& self.wrap_mode == o.wrap_mode
        &&& self.mode == o.mode
        &&& self.bonus_food == o.bonus_food
        &&& self.power_up == o.power_up
        &&& self.mines.wf() == o.mines.wf() && self.mines.w() == o.mines.w() && self.mines.h() == o.mines.h()
        &&& self.mines@ == o.mines@
        &&& self.portals == o.portals
        &&& self.weather == o.weather
        &&& self.lightning_column == o.lightning_column
        &&& self.safe_zone_margin == o.safe_zone_margin
        &&& self.food == o.food
        &&& self.poison_food == o.poison_food
        &&& self.obstacles_same(o)
    }

    /// The board of `self` and `o` is the same but for the boss.
    pub open spec fn board_same_but_boss(&self, o: Game) -> bool {
        &&& self.board_same_but_boss_and_lasers(o)
        &&& self.lasers@ == o.lasers@
    }

    /// The lasers of a burst at `pos` for the first `n` headings in the
    /// order up, down, left, right: one of the boss's on the next cell each
    /// way, heading that way, when that cell lies inside the safe zone.
    pub open spec fn burst_lasers(&self, pos: Point, n: nat) -> Seq<Laser>
        decreases n,
    {
        if n == 0 {
            Seq::empty()
        } else {
            let before = self.burst_lasers(pos, (n - 1) as nat);
            let dir = dir_at(n - 1);
            let lp = spec_step(pos, dir);
            if inside(lp, self.width, self.height, self.margin()) {
                before.push(Laser { position: lp, direction: dir, player: 3 })
            } else {
                before
            }
        }
    }

    /// Where lasers go when a boss dies at `pos`: one each way, when the cell
    /// lies inside the safe zone (see `burst_lasers`), after those already
    /// in `lasers`.
    pub(crate) fn boss_burst(&self, pos: Point, lasers: &mut Vec<Laser>)
        requires
            self.wf(),
            on_board(pos, self.width, self.height),
            forall|i: int| 0 <= i < old(lasers)@.len() ==> on_board(#[trigger] old(lasers)@[i].position, self.width, self.height),
        ensures
            final(lasers)@.len() >= old(lasers)@.len(),
            final(lasers)@.subrange(0, old(lasers)@.len() as int) == old(lasers)@,
            forall|i: int| 0 <= i < final(lasers)@.len() ==> on_board(#[trigger] final(lasers)@[i].position, self.width, self.height),
            final(lasers)@ == old(lasers)@ + self.burst_lasers(pos, 4),
    {
        let margin = self.margin_now();
        let mut d: usize = 0;
        let ghost l0 = lasers@;
        while d < 4
            invariant
                self.wf(),
                d <= 4,
                margin == self.margin(),
                on_board(pos, self.width, self.height),
                lasers@.len() >= l0.len(),
                lasers@.subrange(0, l0.len() as int) == l0,
                forall|i: int| 0 <= i < lasers@.len() ==> on_board(#[trigger] lasers@[i].position, self.width, self.height),
                lasers@ == l0 + self.burst_lasers(pos, d as nat),
            decreases 4 - d,
        {
            let ghost b0 = lasers@;
            let dir = crate::game::dir_of_index(d);
            let lp = Self::calculate_next_head_dir(pos, dir);
            if self.is_inside(lp, margin) {
                let ghost before = lasers@;
                lasers.push(Laser { position: lp, direction: dir, player: 3 });
                proof {
                    assert(lasers@.subrange(0, l0.len() as int) =~= before.subrange(0, l0.len() as int));
                    assert forall|i: int| 0 <= i < lasers@.len() implies on_board(#[trigger] lasers@[i].position, self.width, self.height) by {
                        if i < before.len() {
                            assert(lasers@[i] == before[i]);
                        }
                    }
                }
            }
            assert(lasers@ =~= l0 + self.burst_lasers(pos, (d + 1) as nat));
            d = d + 1;
        }
    }

    /// Points for killing the boss: a thousand per level in the boss rush,
    /// which then moves on a level, or a hundred.
    pub(crate) fn reward_boss_kill(&mut self)
        requires
            old(self).score <= 0xE000_0000,
            old(self).campaign_level <= 0x1_0000,
        ensures
            final(self).score == old(self).score + (if old(self).mode == GameMode::BossRush {
                1000 * old(self).campaign_level
            } else {
                100
            }),
            final(self).campaign_level == old(self).campaign_level + (if old(self).mode == GameMode::BossRush { 1int } else { 0 }),
            final(self).snakes_same(*old(self)),
            final(self).board_same(*old(self)),
            final(self).mode == old(self).mode,
            final(self).stats == old(self).stats,
            final(self).lives == old(self).lives,
            final(self).combo == old(self).combo,
            final(self).food_eaten_session == old(self).food_eaten_session,
            final(self).state == old(self).state,
            final(self).effects@ == old(self).effects@,
            final(self).start_time == old(self).start_time,
            final(self).last_shrink_time == old(self).last_shrink_time,
            final(self).last_obstacle_spawn_time == old(self).last_obstacle_spawn_time,
            final(self).last_chat_time == old(self).last_chat_time,
            final(self).last_food_time == old(self).last_food_time,
            final(self).high_score == old(self).high_score,
            final(self).high_scores@ == old(self).high_scores@,
            final(self).used_bot_this_session == old(self).used_bot_this_session,
            final(self).auto_pilot == old(self).auto_pilot,
    {
        if self.mode == GameMode::BossRush {
            self.score = self.score + 1000 * self.campaign_level;
            self.campaign_level = self.campaign_level + 1;
        } else {
            self.score = self.score + 100;
        }
    }
}

/// How many ticks boss `b` takes per move in `mode` at campaign `level`.
pub open spec fn move_threshold(b: Boss, mode: GameMode, level: u32) -> int {
    let base = if mode == GameMode::BossRush {
        crate::autopilot::max_int(1, crate::game::sat_sub(3, (if level <= 255 { level as int } else { 255 }) / 5))
    } else {
        2
    };
    if b.health <= b.max_health / 2 { crate::autopilot::max_int(1, base / 2) } else { base }
}

/// How many ticks boss `b` takes per shot in `mode` at campaign `level`.
pub open spec fn shoot_threshold(b: Boss, mode: GameMode, level: u32) -> int {
    let base = if mode == GameMode::BossRush {
        crate::autopilot::max_int(5, crate::game::sat_sub(15, if level <= 255 { level as int } else { 255 }))
    } else {
        15
    };
    if b.health <= b.max_health / 2 { crate::autopilot::max_int(1, base / 2) } else { base }
}

/// The heading from `from` that points most directly at `to`: along the
/// axis with the larger distance, vertically on a tie.
pub open spec fn aim(from: Point, to: Point) -> Direction {
    let dx = to.x - from.x;
    let dy = to.y - from.y;
    if crate::game::abs_diff(dx, 0) > crate::game::abs_diff(dy, 0) {
        if dx > 0 { Direction::Right } else { Direction::Left }
    } else {
        if dy > 0 { Direction::Down } else { Direction::Up }
    }
}

fn thresholds(b: &Boss, mode: GameMode, level: u32) -> (r: (u8, u8))
    ensures
        r.0 == move_threshold(*b, mode, level),
        r.1 == shoot_threshold(*b, mode, level),
        1 <= r.0 <= 3,
        1 <= r.1 <= 15,
{
    let lv: u32 = if level <= 255 { level } else { 255 };
    let mut mt: u32 = if mode == GameMode::BossRush {
        let m = if 3 >= lv / 5 { 3 - lv / 5 } else { 0 };
        if m >= 1 { m } else { 1 }
    } else {
        2
    };
    let mut st: u32 = if mode == GameMode::BossRush {
        let m = if 15 >= lv { 15 - lv } else { 0 };
        if m >= 5 { m } else { 5 }
    } else {
        15
    };
    if b.health <= b.max_health / 2 {
        mt = if mt / 2 >= 1 { mt / 2 } else { 1 };
        st = if st / 2 >= 1 { st / 2 } else { 1 };
    }
    (mt as u8, st as u8)
}

fn aim_exec(from: Point, to: Point) -> (d: Direction)
    ensures
        d == aim(from, to),
{
    let dx: i32 = to.x as i32 - from.x as i32;
    let dy: i32 = to.y as i32 - from.y as i32;
    let ax: i32 = if dx >= 0 { dx } else { -dx };
    let ay: i32 = if dy >= 0 { dy } else { -dy };
    if ax > ay {
        if dx > 0 { Direction::Right } else { Direction::Left }
    } else {
        if dy > 0 { Direction::Down } else { Direction::Up }
    }
}

/// The health a new boss gets in `mode` at campaign `level`.
pub open spec fn boss_health(mode: GameMode, level: u32) -> int {
    if mode == GameMode::BossRush { 10 + 5 * level } else { 10 }
}

/// Boss `b` after one tick of its timers, which count up to `mt` and `st`
/// and start again from zero once they reach them.
pub open spec fn timers_ticked(b: Boss, mt: int, st: int) -> Boss {
    Boss {
        move_timer: if b.move_timer + 1 >= mt { 0 } else { (b.move_timer + 1) as u8 },
        shoot_timer: if b.shoot_timer + 1 >= st { 0 } else { (b.shoot_timer + 1) as u8 },
        ..b
    }
}

impl Game {
    /// In the boss rush, or with chance 5 in 1000 in single player and the
    /// daily challenge, a boss appears when there is none: on a free cell
    /// (off the snake and the obstacles) at least five cells inside the safe
    /// zone, with full health (see `boss_health`) and its timers at zero,
    /// marked by particles. Nothing else changes.
    pub(crate) fn spawn_boss(&mut self)
        requires
            old(self).wf(),
            boss_mode(old(self).mode) ==> 2 * (old(self).safe_zone_margin + 5) + 3 <= old(self).width && 2 * (old(self).safe_zone_margin
                + 5) + 3 <= old(self).height,
            old(self).campaign_level <= 0x1_0000,
        ensures
            final(self).wf(),
            final(self).snakes_same(*old(self)),
            final(self).progress_same(*old(self)),
            final(self).board_same_but_boss(*old(self)),
            old(self).boss is Some || !boss_mode(old(self).mode) ==> final(self).boss == old(self).boss
                && final(self).effects@ == old(self).effects@,
            final(self).boss != old(self).boss ==> (final(self).boss matches Some(b) && boss_mode(old(self).mode)
                && b.health == boss_health(old(self).mode, old(self).campaign_level) && b.max_health == b.health
                && b.move_timer == 0 && b.shoot_timer == 0 && b.state_timer == 0 && b.kind == BossType::Shooter
                && inside(b.position, old(self).width, old(self).height, (old(self).safe_zone_margin + 5) as u16)
                && !old(self).snake.cells().contains(b.position) && !old(self).obstacles@.contains(b.position)
                && final(self).effects@ == old(self).effects@.push(
                Effect::Particles { x: b.position.x, y: b.position.y, count: 30, color: Color::Magenta, symbol: 'B' },
            )),
            final(self).boss == old(self).boss ==> final(self).effects@ == old(self).effects@,
            old(self).mode == GameMode::BossRush && old(self).boss is None && final(self).boss is None ==> forall|p: Point|
                inside(p, old(self).width, old(self).height, (old(self).safe_zone_margin + 5) as u16) ==> old(self).snake.cells().contains(
                p,
            ) || old(self).obstacles@.contains(p),
    {
        if self.boss.is_some() {
            return;
        }
        let should_spawn = if self.mode == GameMode::BossRush {
            true
        } else {
            (self.mode == GameMode::SinglePlayer || self.mode == GameMode::DailyChallenge) && gen_ratio(&mut self.rng, 5, 1000)
        };
        if should_spawn {
            let margin = self.safe_zone_margin + 5;
            let nothing = PointSet::new(self.width, self.height);
            let none: Vec<Point> = Vec::new();
            match get_random_empty_point(self.width, self.height, &self.snake, &self.obstacles, &nothing, &none, &mut self.rng, margin) {
                Some(pos) => {
                    let health: u32 = if self.mode == GameMode::BossRush { 10 + self.campaign_level * 5 } else { 10 };
                    self.boss = Some(Boss {
                        position: pos,
                        health,
                        max_health: health,
                        move_timer: 0,
                        shoot_timer: 0,
                        kind: BossType::Shooter,
                        state_timer: 0,
                    });
                    self.effects.push(Effect::Particles { x: pos.x, y: pos.y, count: 30, color: Color::Magenta, symbol: 'B' });
                },
                None => {
                    proof {
                        assert forall|p: Point| inside(p, self.width, self.height, margin) implies self.snake.cells().contains(p)
                            || self.obstacles@.contains(p) by {
                            assert(!nothing@.contains(p));
                            assert(!none@.contains(p));
                        }
                    }
                },
            }
        }
    }

    /// The boss's moves in a tick at `now` (Unix seconds), unless time stands
    /// still: its timers tick (see `timers_ticked` with `move_threshold` and
    /// `shoot_threshold`); when the move timer comes round, the boss takes the
    /// first step of the search towards the head (see `bfs_pathfind_at`) if
    /// that cell is inside the safe zone and free of obstacles; when the shot
    /// timer comes round, it fires a laser from the cell next to it towards
    /// the head (see `aim`), with a beep, if that cell is inside the safe zone.
    pub(crate) fn advance_boss(&mut self, now: u64, frozen: bool)
        requires
            old(self).wf(),
            (old(self).width as int) * (old(self).height as int) < 65535,
            old(self).boss matches Some(b) ==> b.move_timer < 255 && b.shoot_timer < 255,
        ensures
            final(self).wf(),
            final(self).snakes_same(*old(self)),
            final(self).progress_same(*old(self)),
            final(self).board_same_but_boss_and_lasers(*old(self)),
            frozen || old(self).boss is None ==> final(self).boss == old(self).boss && final(self).lasers@ == old(self).lasers@
                && final(self).effects@ == old(self).effects@,
            !frozen && old(self).boss is Some ==> ({
                let b = old(self).boss->0;
                let mt = move_threshold(b, old(self).mode, old(self).campaign_level);
                let st = shoot_threshold(b, old(self).mode, old(self).campaign_level);
                let t = timers_ticked(b, mt, st);
                let nb = final(self).boss->0;
                let head = old(self).snake.cells()[0];
                let lp = spec_step(nb.position, aim(nb.position, head));
                let fires = b.shoot_timer + 1 >= st && inside(lp, old(self).width, old(self).height, old(self).margin());
                &&& final(self).boss == Some(Boss { position: nb.position, ..t })
                &&& nb.position != b.position ==> b.move_timer + 1 >= mt && inside(nb.position, old(self).width, old(self).height, old(self).margin())
                    && !old(self).obstacles@.contains(nb.position) && exists|d: Direction| #[trigger] spec_step(b.position, d) == nb.position
                        && old(self).bfs_ok(b.position, head, Some(d), now)
                &&& final(self).lasers@ == (if fires {
                    old(self).lasers@.push(Laser { position: lp, direction: aim(nb.position, head), player: 3 })
                } else {
                    old(self).lasers@
                })
                &&& final(self).effects@ == (if fires { old(self).effects@.push(Effect::Beep) } else { old(self).effects@ })
            }),
            final(self).boss matches Some(b) ==> b.move_timer < 255 && b.shoot_timer < 255,
    {
        if frozen {
            return;
        }
        let taken = self.boss;
        match taken {
            None => {},
            Some(b0) => {
                let mut boss = b0;
                let (mt, st) = thresholds(&boss, self.mode, self.campaign_level);
                let head = self.snake.head();
                boss.move_timer = boss.move_timer + 1;
                if boss.move_timer >= mt {
                    boss.move_timer = 0;
                    match self.bfs_pathfind_at(boss.position, head, now) {
                        Some(dir) => {
                            let next = Self::calculate_next_head_dir(boss.position, dir);
                            let margin = self.margin_now();
                            if self.is_inside(next, margin) && !self.obstacles.contains(next) {
                                boss.position = next;
                            }
                        },
                        None => {},
                    }
                }
                boss.shoot_timer = boss.shoot_timer + 1;
                if boss.shoot_timer >= st {
                    boss.shoot_timer = 0;
                    let dir = aim_exec(boss.position, head);
                    let lp = Self::calculate_next_head_dir(boss.position, dir);
                    let margin = self.margin_now();
                    if self.is_inside(lp, margin) {
                        let ghost l1 = self.lasers@;
                        self.lasers.push(Laser { position: lp, direction: dir, player: 3 });
                        self.effects.push(Effect::Beep);
                        proof {
                            assert forall|i: int| 0 <= i < self.lasers@.len() implies on_board(#[trigger] self.lasers@[i].position, self.width, self.height) by {
                                if i < l1.len() {
                                    assert(self.lasers@[i] == l1[i]);
                                }
                            }
                        }
                    }
                }
                self.boss = Some(boss);
            },
        }
    }
}

/// The sparks down column `x`, top to bottom, on the rows from `lo` up to
/// `hi` (exclusive) that are multiples of three.
pub open spec fn sparks(x: u16, lo: int, hi: int) -> Seq<Effect>
    decreases hi - lo,
{
    if hi <= lo {
        Seq::empty()
    } else {
        let above = sparks(x, lo, hi - 1);
        if (hi - 1) % 3 == 0 {
            above.push(Effect::Particles { x, y: (hi - 1) as u16, count: 2, color: Color::Cyan, symbol: '!' })
        } else {
            above
        }
    }
}

/// Adds the sparks down column `x` on the rows from `lo` up to `hi`
/// (exclusive) that are multiples of three (see `sparks`).
fn push_sparks(effects: &mut Vec<Effect>, x: u16, lo: u16, hi: u16)
    ensures
        final(effects)@.len() >= old(effects)@.len(),
        final(effects)@.subrange(0, old(effects)@.len() as int) == old(effects)@,
        final(effects)@ == old(effects)@ + sparks(x, lo as int, hi as int),
{
    let ghost e1 = effects@;
    let mut y: u16 = lo;
    while y < hi
        invariant
            lo <= y,
            y <= hi || y == lo,
            e1.len() <= effects@.len(),
            effects@.subrange(0, e1.len() as int) == e1,
            effects@ == e1 + sparks(x, lo as int, y as int),
        decreases hi - y,
    {
        if y % 3 == 0 {
            let ghost before = effects@;
            effects.push(Effect::Particles { x, y, count: 2, color: Color::Cyan, symbol: '!' });
            assert(effects@.subrange(0, e1.len() as int) =~= before.subrange(0, e1.len() as int));
        }
        assert(effects@ =~= e1 + sparks(x, lo as int, y + 1));
        y = y + 1;
    }
    proof {
        if hi <= lo {
            assert(sparks(x, lo as int, hi as int) == Seq::<Effect>::empty());
            assert(sparks(x, lo as int, y as int) == Seq::<Effect>::empty());
        }
    }
    assert(effects@ =~= e1 + sparks(x, lo as int, hi as int));
}

impl Game {
    /// Removes the obstacles of column `x`.
    fn clear_obstacle_column(&mut self, x: u16)
        requires
            old(self).wf(),
        ensures
            final(self).wf(),
            forall|p: Point| #[trigger] final(self).obstacles.has(p) == (old(self).obstacles.has(p) && p.x != x),
            final(self).snakes_same(*old(self)),
            final(self).board_same_but_obstacles(*old(self)),
            final(self).progress_same(*old(self)),
            final(self).effects@ == old(self).effects@,
    {
        let mut y: u16 = 0;
        while y < self.height
            invariant
                self.wf(),
                forall|p: Point| #[trigger] self.obstacles.has(p) == (old(self).obstacles.has(p) && !(p.x == x && p.y < y)),
                self.snakes_same(*old(self)),
                self.board_same_but_obstacles(*old(self)),
                self.progress_same(*old(self)),
                self.effects@ == old(self).effects@,
            decreases self.height - y,
        {
            self.obstacles.remove(Point { x, y });
            y = y + 1;
        }
        proof {
            assert forall|p: Point| #[trigger] self.obstacles.has(p) == (old(self).obstacles.has(p) && p.x != x) by {
                old(self).obstacles.lemma_has_on_board(p);
            }
        }
    }

    /// Lightning strikes column `x`: it is remembered as the lightning
    /// column, its obstacles are gone, a boss standing in it loses five
    /// health (down to zero) with particles, and dies at zero, which is
    /// rewarded (see `reward_boss_kill`) and sends lasers out of its cell
    /// (see `boss_burst`); sparks fly down the column inside the safe zone
    /// (see `sparks`), with a beep.
    #[verifier::rlimit(30)]
    fn strike_column(&mut self, x: u16)
        requires
            old(self).wf(),
            old(self).score <= 0xE000_0000,
            old(self).campaign_level <= 0x1_0000,
        ensures
            final(self).wf(),
            final(self).lightning_column == Some(x),
            forall|p: Point| #[trigger] final(self).obstacles.has(p) == (old(self).obstacles.has(p) && p.x != x),
            final(self).snakes_same(*old(self)),
            final(self).food == old(self).food,
            final(self).bonus_food == old(self).bonus_food,
            final(self).poison_food == old(self).poison_food,
            final(self).power_up == old(self).power_up,
            final(self).portals == old(self).portals,
            final(self).mines@ == old(self).mines@,
            final(self).weather == old(self).weather,
            final(self).safe_zone_margin == old(self).safe_zone_margin,
            final(self).mode == old(self).mode,
            final(self).width == old(self).width,
            final(self).height == old(self).height,
            final(self).wrap_mode == old(self).wrap_mode,
            final(self).boss == (match old(self).boss {
                Some(b) => if b.position.x != x {
                    Some(b)
                } else if b.health <= 5 {
                    None
                } else {
                    Some(Boss { health: (b.health - 5) as u32, ..b })
                },
                None => None,
            }),
            (old(self).boss matches Some(b) && b.position.x == x && b.health <= 5) ==> final(self).score == old(self).score + (if old(self).mode
                == GameMode::BossRush {
                1000 * old(self).campaign_level
            } else {
                100
            }) && final(self).campaign_level == old(self).campaign_level + (if old(self).mode == GameMode::BossRush { 1int } else { 0 })
                && final(self).lasers@.len() >= old(self).lasers@.len()
                && final(self).lasers@.subrange(0, old(self).lasers@.len() as int) == old(self).lasers@,
            !(old(self).boss matches Some(b) && b.position.x == x && b.health <= 5) ==> final(self).score == old(self).score
                && final(self).campaign_level == old(self).campaign_level && final(self).lasers@ == old(self).lasers@,
            final(self).lives == old(self).lives,
            final(self).state == old(self).state,
            final(self).last_shrink_time == old(self).last_shrink_time,
            final(self).stats == old(self).stats,
            final(self).combo == old(self).combo,
            final(self).food_eaten_session == old(self).food_eaten_session,
            final(self).start_time == old(self).start_time,
            final(self).auto_pilot == old(self).auto_pilot,
            effects_extend(old(self).effects@, final(self).effects@),
            final(self).effects@.last() == Effect::Beep,
    {
        self.lightning_column = Some(x);
        self.clear_obstacle_column(x);
        let ghost mid = *self;
        match self.boss {
            Some(b0) => {
                if b0.position.x == x {
                    let mut boss = b0;
                    boss.health = boss.health.saturating_sub(5);
                    if boss.health == 0 {
                        self.reward_boss_kill();
                        self.effects.push(Effect::Particles { x, y: boss.position.y, count: 30, color: Color::Magenta, symbol: 'B' });
                        self.boss = None;
                        let mut out = Vec::new();
                        std::mem::swap(&mut out, &mut self.lasers);
                        self.boss_burst(boss.position, &mut out);
                        self.lasers = out;
                    } else {
                        self.boss = Some(boss);
                        self.effects.push(Effect::Particles { x, y: boss.position.y, count: 10, color: Color::Yellow, symbol: '*' });
                    }
                }
            },
            None => {},
        }
        assert forall|p: Point| #[trigger] self.obstacles.has(p) == (old(self).obstacles.has(p) && p.x != x) by {
            assert(self.obstacles@.contains(p) == mid.obstacles@.contains(p));
        }
        let ghost e0 = old(self).effects@;
        assert(effects_extend(e0, self.effects@)) by {
            assert(self.effects@.subrange(0, e0.len() as int) =~= e0);
        }
        let margin = self.margin_now();
        let ghost e1 = self.effects@;
        push_sparks(&mut self.effects, x, margin + 1, self.height - margin - 1);
        let ghost e2 = self.effects@;
        self.effects.push(Effect::Beep);
        proof {
            assert(e2.subrange(0, e0.len() as int) =~= e1.subrange(0, e0.len() as int));
            assert(self.effects@.subrange(0, e0.len() as int) =~= e2.subrange(0, e0.len() as int));
        }
    }

    /// The weather's part of a tick: the last lightning is forgotten; with
    /// chance 2 in 1000 the weather changes to one picked at random; in a
    /// storm, with chance 2 in 100, lightning strikes a random column inside
    /// the safe zone (see `strike_column`).
    pub(crate) fn weather_phase(&mut self)
        requires
            old(self).wf(),
            old(self).score <= 0xE000_0000,
            old(self).campaign_level <= 0x1_0000,
        ensures
            final(self).wf(),
            final(self).snakes_same(*old(self)),
            final(self).food == old(self).food,
            final(self).bonus_food == old(self).bonus_food,
            final(self).poison_food == old(self).poison_food,
            final(self).power_up == old(self).power_up,
            final(self).portals == old(self).portals,
            final(self).mines@ == old(self).mines@,
            final(self).safe_zone_margin == old(self).safe_zone_margin,
            final(self).mode == old(self).mode,
            final(self).width == old(self).width,
            final(self).height == old(self).height,
            final(self).wrap_mode == old(self).wrap_mode,
            final(self).lightning_column matches Some(x) ==> final(self).weather == Weather::Storm && old(self).margin() < x && x + 1 + old(self).margin() < old(self).width && forall|p: Point| #[trigger] final(self).obstacles.has(p) == (old(self).obstacles.has(p) && p.x != x),
            final(self).lightning_column is None ==> final(self).obstacles@ == old(self).obstacles@ && final(self).boss
                == old(self).boss && final(self).lasers@ == old(self).lasers@ && final(self).score == old(self).score
                && final(self).campaign_level == old(self).campaign_level && final(self).effects@ == old(self).effects@,
            final(self).score <= old(self).score + 0x0400_0000,
            final(self).campaign_level <= old(self).campaign_level + 1,
            final(self).lives == old(self).lives,
            final(self).state == old(self).state,
            final(self).stats == old(self).stats,
            final(self).combo == old(self).combo,
            final(self).food_eaten_session == old(self).food_eaten_session,
            final(self).start_time == old(self).start_time,
            final(self).auto_pilot == old(self).auto_pilot,
            final(self).last_shrink_time == old(self).last_shrink_time,
            final(self).lasers@.len() >= old(self).lasers@.len(),
            effects_extend(old(self).effects@, final(self).effects@),
            final(self).boss is Some ==> old(self).boss is Some,
            final(self).boss matches Some(b) ==> old(self).boss matches Some(ob) && b.position == ob.position && b.move_timer
                == ob.move_timer && b.shoot_timer == ob.shoot_timer,
    {
        self.lightning_column = None;
        if gen_ratio(&mut self.rng, 2, 1000) {
            let k = gen_range_u32(&mut self.rng, 0, 4);
            self.weather = if k == 0 {
                Weather::Clear
            } else if k == 1 {
                Weather::Rain
            } else if k == 2 {
                Weather::Snow
            } else {
                Weather::Storm
            };
        }
        if self.weather == Weather::Storm && gen_ratio(&mut self.rng, 2, 100) {
            let margin = self.margin_now();
            let min_x = margin + 1;
            let max_x = self.width - 1 - margin;
            let strike_x = gen_range_u16(&mut self.rng, min_x, max_x);
            let ghost cl = self.campaign_level;
            assert(1000 * cl <= 0x0400_0000) by (nonlinear_arith)
                requires
                    cl <= 0x1_0000,
            ;
            self.strike_column(strike_x);
        }
        proof {
            assert(self.effects@.subrange(0, old(self).effects@.len() as int) =~= old(self).effects@);
        }
    }
}

} // verus!
