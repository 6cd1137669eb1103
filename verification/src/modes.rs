use crate::game::{cells_of, free_cell, get_random_empty_point, inside, sat_sub, Effect, Game};
use crate::kinds::GameMode;
use crate::lasers::extends;
use crate::tick::effects_extend;
use crate::pointset::PointSet;
use crate::snake::{Direction, Point};
use vstd::prelude::*;

verus! {

broadcast use vstd::std_specs::vecdeque::group_vec_dequeue_axioms;

/// The widest safe-zone margin Battle Royale shrinks to on a `w` by `h` board.
pub open spec fn max_margin(w: u16, h: u16) -> int {
    sat_sub((if w <= h { w as int } else { h as int }) / 2, 2)
}

impl Game {
    /// The cells of the second snake, if there is one.
    pub(crate) fn second_cells(&self) -> (r: Vec<Point>)
        ensures
            r@ == cells_of(self.player2),
    {
        let mut out: Vec<Point> = Vec::new();
        match &self.player2 {
            Some(p2) => {
                let mut i: usize = 0;
                while i < p2.body.len()
                    invariant
                        i <= p2.body@.len(),
                        out@ == p2.body@.take(i as int),
                    decreases p2.body@.len() - i,
                {
                    out.push(p2.body[i]);
                    i = i + 1;
                    assert(out@ =~= p2.body@.take(i as int));
                }
                assert(p2.body@.take(i as int) =~= p2.body@);
            },
            None => {},
        }
        out
    }

    /// Whether the Battle Royale zone shrinks at `now` (milliseconds): ten
    /// seconds after the last shrink, while the margin is below `max_margin`.
    pub open spec fn zone_due(&self, now: u64) -> bool {
        &&& self.mode == GameMode::BattleRoyale
        &&& sat_sub(now as int, self.last_shrink_time as int) >= 10000
        &&& self.safe_zone_margin < max_margin(self.width, self.height)
    }

    /// In Battle Royale, when `zone_due`, the safe zone shrinks by one cell
    /// at `now` (milliseconds), with a beep: food outside it moves to a free
    /// cell inside (off the obstacles and both snakes) when one is left, and
    /// bonus food or a power-up outside it is gone. Otherwise nothing changes.
    pub fn zone_phase(&mut self, now: u64)
        requires
            old(self).wf(),
        ensures
            final(self).wf(),
            final(self).snakes_same(*old(self)),
            final(self).obstacles_same(*old(self)),
            final(self).mines@ == old(self).mines@,
            final(self).boss == old(self).boss,
            final(self).portals == old(self).portals,
            final(self).lasers@ == old(self).lasers@,
            final(self).poison_food == old(self).poison_food,
            final(self).weather == old(self).weather,
            final(self).lightning_column == old(self).lightning_column,
            final(self).mode == old(self).mode,
            final(self).width == old(self).width,
            final(self).height == old(self).height,
            final(self).wrap_mode == old(self).wrap_mode,
            final(self).score == old(self).score,
            final(self).lives == old(self).lives,
            final(self).state == old(self).state,
            final(self).stats == old(self).stats,
            final(self).combo == old(self).combo,
            final(self).campaign_level == old(self).campaign_level,
            final(self).food_eaten_session == old(self).food_eaten_session,
            final(self).start_time == old(self).start_time,
            final(self).last_obstacle_spawn_time == old(self).last_obstacle_spawn_time,
            final(self).high_score == old(self).high_score,
            final(self).high_scores@ == old(self).high_scores@,
            final(self).used_bot_this_session == old(self).used_bot_this_session,
            final(self).auto_pilot == old(self).auto_pilot,
            !old(self).zone_due(now) ==> final(self).safe_zone_margin == old(self).safe_zone_margin && final(self).last_shrink_time
                == old(self).last_shrink_time && final(self).food == old(self).food && final(self).bonus_food == old(self).bonus_food
                && final(self).power_up == old(self).power_up && final(self).effects@ == old(self).effects@,
            old(self).zone_due(now) ==> ({
                let m = (old(self).safe_zone_margin + 1) as u16;
                let (w, h) = (old(self).width, old(self).height);
                &&& final(self).safe_zone_margin == m
                &&& final(self).last_shrink_time == now
                &&& inside(old(self).food, w, h, m) ==> final(self).food == old(self).food
                &&& !inside(old(self).food, w, h, m) ==> (final(self).food == old(self).food && forall|p: Point| inside(p, w, h, m)
                    ==> !free_cell(p, old(self).snake.cells(), old(self).obstacles@, Set::empty(), cells_of(old(self).player2)))
                    || (inside(final(self).food, w, h, m) && free_cell(
                    final(self).food,
                    old(self).snake.cells(),
                    old(self).obstacles@,
                    Set::empty(),
                    cells_of(old(self).player2),
                ))
                &&& final(self).bonus_food == (match old(self).bonus_food {
                    Some((b, t)) => if inside(b, w, h, m) { Some((b, t)) } else { None },
                    None => None,
                })
                &&& final(self).power_up == (match old(self).power_up {
                    Some(pu) => if inside(pu.location, w, h, m) { Some(pu) } else { None },
                    None => None,
                })
                &&& final(self).effects@ == old(self).effects@.push(Effect::Beep)
            }),
    {
        if self.mode != GameMode::BattleRoyale {
            return;
        }
        let elapsed = if now >= self.last_shrink_time { now - self.last_shrink_time } else { 0 };
        if elapsed < 10000 {
            return;
        }
        let small = if self.width <= self.height { self.width } else { self.height };
        let limit = if small / 2 >= 2 { small / 2 - 2 } else { 0 };
        if self.safe_zone_margin >= limit {
            return;
        }
        self.safe_zone_margin = self.safe_zone_margin + 1;
        self.last_shrink_time = now;
        let m = self.safe_zone_margin;
        if !self.is_inside(self.food, m) {
            let nothing = PointSet::new(self.width, self.height);
            let extra = self.second_cells();
            match get_random_empty_point(self.width, self.height, &self.snake, &self.obstacles, &nothing, &extra, &mut self.rng, m) {
                Some(p) => {
                    self.food = p;
                },
                None => {},
            }
        }
        match self.bonus_food {
            Some((b, _)) => {
                if !self.is_inside(b, m) {
                    self.bonus_food = None;
                }
            },
            None => {},
        }
        match self.power_up {
            Some(pu) => {
                if !self.is_inside(pu.location, m) {
                    self.power_up = None;
                }
            },
            None => {},
        }
        self.effects.push(Effect::Beep);
    }

    /// The cells a new obstacle may not take besides the obstacles and the
    /// first snake: the food, the bonus food, the power-up and the second snake.
    pub open spec fn spawn_extra(&self) -> Seq<Point> {
        let s1 = seq![self.food];
        let s2 = match self.bonus_food {
            Some((b, _)) => s1.push(b),
            None => s1,
        };
        let s3 = match self.power_up {
            Some(pu) => s2.push(pu.location),
            None => s2,
        };
        s3 + cells_of(self.player2)
    }

    fn spawn_extra_vec(&self) -> (r: Vec<Point>)
        ensures
            r@ == self.spawn_extra(),
    {
        let mut v: Vec<Point> = Vec::new();
        v.push(self.food);
        match self.bonus_food {
            Some((b, _)) => v.push(b),
            None => {},
        }
        match &self.power_up {
            Some(pu) => v.push(pu.location),
            None => {},
        }
        let mut rest = self.second_cells();
        v.append(&mut rest);
        v
    }

    /// Whether a timed obstacle change is due at `now` (milliseconds): in
    /// Survival three seconds, in Evolution two seconds after the last one.
    pub open spec fn spawn_due(&self, now: u64) -> bool {
        let elapsed = sat_sub(now as int, self.last_obstacle_spawn_time as int);
        (self.mode == GameMode::Survival && elapsed >= 3000) || (self.mode == GameMode::Evolution && elapsed >= 2000)
    }

    /// When `spawn_due` at `now` (milliseconds): in Survival a new obstacle
    /// on a random free cell inside the safe zone (see `spawn_extra`), when
    /// one is left; in Evolution the next generation of the obstacles (see
    /// `evolve_game_of_life`). Otherwise nothing changes.
    pub fn spawn_phase(&mut self, now: u64)
        requires
            old(self).wf(),
        ensures
            final(self).wf(),
            final(self).snakes_same(*old(self)),
            final(self).board_same_but_obstacles(*old(self)),
            final(self).score == old(self).score,
            final(self).lives == old(self).lives,
            final(self).state == old(self).state,
            final(self).stats == old(self).stats,
            final(self).combo == old(self).combo,
            final(self).campaign_level == old(self).campaign_level,
            final(self).food_eaten_session == old(self).food_eaten_session,
            final(self).start_time == old(self).start_time,
            final(self).last_shrink_time == old(self).last_shrink_time,
            final(self).high_score == old(self).high_score,
            final(self).high_scores@ == old(self).high_scores@,
            final(self).used_bot_this_session == old(self).used_bot_this_session,
            final(self).auto_pilot == old(self).auto_pilot,
            final(self).effects@ == old(self).effects@,
            !old(self).spawn_due(now) ==> final(self).obstacles@ == old(self).obstacles@ && final(self).last_obstacle_spawn_time
                == old(self).last_obstacle_spawn_time,
            old(self).spawn_due(now) ==> final(self).last_obstacle_spawn_time == now,
            old(self).spawn_due(now) && old(self).mode == GameMode::Survival ==> (final(self).obstacles@ == old(self).obstacles@
                && forall|p: Point| inside(p, old(self).width, old(self).height, old(self).safe_zone_margin) ==> !free_cell(
                p,
                old(self).snake.cells(),
                old(self).obstacles@,
                Set::empty(),
                old(self).spawn_extra(),
            )) || exists|p: Point| inside(p, old(self).width, old(self).height, old(self).safe_zone_margin) && free_cell(
                p,
                old(self).snake.cells(),
                old(self).obstacles@,
                Set::empty(),
                old(self).spawn_extra(),
            ) && final(self).obstacles@ == old(self).obstacles@.insert(p),
            old(self).spawn_due(now) && old(self).mode == GameMode::Evolution ==> forall|p: Point| #[trigger] final(self).obstacles.has(p)
                == old(self).life_next(p),
            old(self).spawn_due(now) && old(self).mode == GameMode::Evolution ==> Game::items_clear(*old(self), final(self).obstacles@),
    {
        let elapsed = if now >= self.last_obstacle_spawn_time { now - self.last_obstacle_spawn_time } else { 0 };
        if self.mode == GameMode::Survival && elapsed >= 3000 {
            self.last_obstacle_spawn_time = now;
            let nothing = PointSet::new(self.width, self.height);
            let extra = self.spawn_extra_vec();
            let m = self.safe_zone_margin;
            match get_random_empty_point(self.width, self.height, &self.snake, &self.obstacles, &nothing, &extra, &mut self.rng, m) {
                Some(p) => {
                    self.obstacles.insert(p);
                },
                None => {
                    proof {
                        assert forall|p: Point| inside(p, old(self).width, old(self).height, old(self).safe_zone_margin) implies !free_cell(
                            p,
                            old(self).snake.cells(),
                            old(self).obstacles@,
                            Set::empty(),
                            old(self).spawn_extra(),
                        ) by {
                            assert(!nothing@.contains(p));
                        }
                    }
                },
            }
        } else if self.mode == GameMode::Evolution && elapsed >= 2000 {
            self.last_obstacle_spawn_time = now;
            self.evolve_game_of_life();
        }
    }

    /// The bot of snake `player` (1 or 2, which must exist) at `now` (Unix
    /// seconds): it queues its move (see `autopilot_move_at`), if any, and
    /// fires when `bot_should_shoot` after that.
    fn bot_turn(&mut self, player: u8, now: u64)
        requires
            old(self).wf(),
            (old(self).width as int) * (old(self).height as int) < 65535,
            player == 1 || (player == 2 && old(self).player2 is Some),
        ensures
            final(self).wf(),
            final(self).board_same_but_lasers(*old(self)),
            final(self).progress_same(*old(self)),
            final(self).snake.cells() == old(self).snake.cells(),
            final(self).snake.direction == old(self).snake.direction,
            player == 2 ==> final(self).snake.direction_queue@ == old(self).snake.direction_queue@,
            player == 1 ==> (final(self).snake.direction_queue@ == old(self).snake.direction_queue@ || exists|d: Direction|
                final(self).snake.direction_queue@ == old(self).snake.direction_queue@.push(d) && #[trigger] old(self).move_ok(
                old(self).snake.cells()[0],
                1,
                Some(d),
                now,
            )),
            final(self).player2 is Some == old(self).player2 is Some,
            old(self).player2 matches Some(a) ==> (final(self).player2 matches Some(b) && b.cells() == a.cells() && b.direction
                == a.direction && (player == 1 ==> b.direction_queue@ == a.direction_queue@) && (player == 2 ==> (
            b.direction_queue@ == a.direction_queue@ || exists|d: Direction|
                b.direction_queue@ == a.direction_queue@.push(d) && #[trigger] old(self).move_ok(a.cells()[0], 2, Some(d), now)))),
            extends(old(self).lasers@, final(self).lasers@),
            effects_extend(old(self).effects@, final(self).effects@),
    {
        let mv = self.autopilot_move_at(player, now);
        match mv {
            Some(dir) => {
                if player == 1 {
                    self.snake.direction_queue.push_back(dir);
                } else {
                    match &mut self.player2 {
                        Some(p2) => {
                            p2.direction_queue.push_back(dir);
                        },
                        None => {},
                    }
                }
            },
            None => {},
        }
        if self.should_bot_shoot(player) {
            self.shoot_laser(player);
        }
        proof {
            assert(self.lasers@.subrange(0, old(self).lasers@.len() as int) =~= old(self).lasers@);
            assert(self.effects@.subrange(0, old(self).effects@.len() as int) =~= old(self).effects@);
        }
    }

    /// What the bots do in a tick at `now` (Unix seconds), unless they
    /// `hesitate`: the bot of the first snake (on autopilot, or in Bot vs
    /// Bot) takes its turn (see `bot_turn`) when nothing is queued for it
    /// yet; in Player vs Bot and Bot vs Bot the bot of the second snake then
    /// does the same.
    pub(crate) fn autopilot_phase(&mut self, now: u64, hesitate: bool)
        requires
            old(self).wf(),
            (old(self).width as int) * (old(self).height as int) < 65535,
        ensures
            final(self).wf(),
            final(self).board_same_but_lasers(*old(self)),
            final(self).progress_same(*old(self)),
            final(self).snake.cells() == old(self).snake.cells(),
            final(self).snake.direction == old(self).snake.direction,
            hesitate ==> final(self).snake.direction_queue@ == old(self).snake.direction_queue@ && final(self).player2
                == old(self).player2 && final(self).lasers@ == old(self).lasers@ && final(self).effects@ == old(self).effects@,
            final(self).snake.direction_queue@ == old(self).snake.direction_queue@ || (old(self).snake.direction_queue@.len() == 0
                && (old(self).auto_pilot || old(self).mode == GameMode::BotVsBot) && final(self).snake.direction_queue@.len() == 1
                && old(self).move_ok(old(self).snake.cells()[0], 1, Some(final(self).snake.direction_queue@[0]), now)),
            final(self).player2 is Some == old(self).player2 is Some,
            old(self).player2 matches Some(a) ==> (final(self).player2 matches Some(b) && b.cells() == a.cells() && b.direction
                == a.direction && (b.direction_queue@ == a.direction_queue@ || (a.direction_queue@.len() == 0 && (old(self).mode
                == GameMode::PlayerVsBot || old(self).mode == GameMode::BotVsBot) && b.direction_queue@.len() == 1))),
            extends(old(self).lasers@, final(self).lasers@),
            effects_extend(old(self).effects@, final(self).effects@),
    {
        if !hesitate && (self.auto_pilot || self.mode == GameMode::BotVsBot) && self.snake.direction_queue.len() == 0 {
            self.bot_turn(1, now);
            proof {
                let q = self.snake.direction_queue@;
                if q != old(self).snake.direction_queue@ {
                    let d = choose|d: Direction| q == old(self).snake.direction_queue@.push(d) && #[trigger] old(self).move_ok(
                        old(self).snake.cells()[0],
                        1,
                        Some(d),
                        now,
                    );
                    assert(q[0] == d);
                }
            }
        }
        let ghost g1 = *self;
        assert(extends(old(self).lasers@, g1.lasers@)) by {
            assert(g1.lasers@.subrange(0, g1.lasers@.len() as int) =~= g1.lasers@);
        }
        assert(effects_extend(old(self).effects@, g1.effects@)) by {
            assert(g1.effects@.subrange(0, g1.effects@.len() as int) =~= g1.effects@);
        }
        if !hesitate && (self.mode == GameMode::PlayerVsBot || self.mode == GameMode::BotVsBot) {
            let empty = match &self.player2 {
                Some(p2) => p2.direction_queue.len() == 0,
                None => false,
            };
            if empty {
                self.bot_turn(2, now);
            }
        }
        proof {
            assert(self.lasers@.subrange(0, g1.lasers@.len() as int) =~= g1.lasers@);
            assert(self.lasers@.subrange(0, old(self).lasers@.len() as int) =~= old(self).lasers@);
            assert(self.effects@.subrange(0, g1.effects@.len() as int) =~= g1.effects@);
            assert(self.effects@.subrange(0, old(self).effects@.len() as int) =~= old(self).effects@);
        }
    }
}

} // verus!
