use crate::game::{cells_of, inside, sat_sub, Game};
use crate::kinds::{GameMode, GameState, PowerUpType, Weather};
use crate::play::snapshot_of;
use crate::save::item_cell;
use crate::rng::gen_ratio;
use crate::outcome::moved_cells;
use crate::snake::{spec_step, Point};
use crate::tick::boss_mode;
use std::collections::VecDeque;
use vstd::prelude::*;

verus! {

broadcast use vstd::std_specs::vecdeque::group_vec_dequeue_axioms;

impl Game {
    /// What a tick of play needs besides the shape of the game (`wf`): room
    /// in the counters, a board small enough for the searches, room for a
    /// boss away from the safe-zone edge in the modes that have one, boss
    /// timers that can count on, and a life to lose.
    pub open spec fn tick_ready(&self) -> bool {
        &&& self.tick_headroom()
        &&& (self.width as int) * (self.height as int) < 65535
        &&& boss_mode(self.mode) ==> 2 * (self.safe_zone_margin + 5) + 3 <= self.width && 2 * (self.safe_zone_margin + 5) + 3
            <= self.height
        &&& (self.boss matches Some(b) ==> b.move_timer < 255 && b.shoot_timer < 255)
        &&& self.lives > 0
    }

    /// Checks `tick_ready`.
    pub fn is_tick_ready(&self) -> (r: bool)
        ensures
            r == self.tick_ready(),
    {
        let boss_ok = match self.boss {
            Some(b) => b.move_timer < 255 && b.shoot_timer < 255,
            None => true,
        };
        let room = if self.mode == GameMode::BossRush || self.mode == GameMode::SinglePlayer || self.mode
            == GameMode::DailyChallenge {
            (self.safe_zone_margin as u32 + 5) * 2 + 3 <= self.width as u32 && (self.safe_zone_margin as u32 + 5) * 2 + 3
                <= self.height as u32
        } else {
            true
        };
        let w = self.width as u64;
        let h = self.height as u64;
        assert(w * h <= 0xFFFF * 0xFFFF) by (nonlinear_arith)
            requires
                w <= 0xFFFF,
                h <= 0xFFFF,
        ;
        let area = w * h;
        self.score <= 0x4000_0000 && self.stats.total_score <= 0x4000_0000 && self.stats.coins <= 0x4000_0000
            && self.stats.total_food_eaten <= 0x4000_0000 && self.stats.games_played <= 0x4000_0000
            && self.stats.total_time_s <= 0x4000_0000_0000_0000 && self.food_eaten_session <= 0x4000_0000 && self.combo <= 0xFF00
            && self.campaign_level <= 0xFF00 && self.lives <= 0x4000_0000 && area < 65535
            && room && boss_ok && self.lives > 0
    }

    /// Whether `self` can be the board in the middle of a tick from `o` at
    /// `now_ms` (milliseconds), when the heads move: the same board and
    /// snake cells, a queued turn taken, the heading kept when nothing is
    /// queued and no bot steers; the food where it was unless the zone
    /// shrank or a magnet pulled it; and poison under the food only when it
    /// was there before, or the zone or a magnet moved the food.
    pub open spec fn tick_middle(&self, o: Game, now_ms: u64) -> bool {
        let now_s = (now_ms / 1000) as u64;
        &&& self.wf()
        &&& self.width == o.width && self.height == o.height && self.mode == o.mode
        &&& self.snake.cells() == o.snake.cells()
        &&& (o.snake.direction_queue@.len() > 0 ==> self.snake.direction == o.snake.direction_queue@[0])
        &&& (o.snake.direction_queue@.len() == 0 && !o.auto_pilot && o.mode != GameMode::BotVsBot ==> self.snake.direction
            == o.snake.direction)
        &&& (!o.zone_due(now_ms) && !o.power_active(PowerUpType::Magnet, now_s) ==> self.food == o.food)
        &&& (item_cell(self.poison_food) == Some(self.food) ==> item_cell(o.poison_food) == Some(self.food) || o.zone_due(now_ms)
            || o.power_active(PowerUpType::Magnet, now_s))
        &&& cells_of(self.player2) == cells_of(o.player2)
        &&& (o.player2 matches Some(a) ==> self.player2 matches Some(b) && (a.direction_queue@.len() > 0 ==> b.direction
            == a.direction_queue@[0]) && (a.direction_queue@.len() == 0 && o.mode != GameMode::PlayerVsBot && o.mode
            != GameMode::BotVsBot ==> b.direction == a.direction))
    }

    /// Where the first snake's head goes at `now` (Unix seconds) from the
    /// middle of a tick (see `resolve_head`).
    pub open spec fn first_head(&self, now: u64) -> Point {
        self.resolve_head(spec_step(self.snake.cells()[0], self.snake.direction), now).0
    }

    /// Where the second snake's head goes at `now`, if there is one.
    pub open spec fn second_head(&self, now: u64) -> Option<Point> {
        match self.player2 {
            Some(p2) => Some(self.resolve_head(spec_step(p2.cells()[0], p2.direction), now).0),
            None => None,
        }
    }

    /// No power-up lies where a head goes at `now`.
    pub open spec fn no_power_up_at_heads(&self, now: u64) -> bool {
        &&& !self.power_up_at(self.first_head(now))
        &&& (self.second_head(now) matches Some(q) ==> !self.power_up_at(q))
    }

    /// The first snake's cells at the end of a tick from the middle state
    /// at `now` (Unix seconds) in which no snake dies: poison under the new
    /// head takes the tail, and the snake grows when the head lands on the
    /// food or the bonus food.
    pub open spec fn first_after(&self, now: u64) -> Seq<Point> {
        let h = self.first_head(now);
        let cells = if item_cell(self.poison_food) == Some(h) && self.snake.cells().len() > 1 {
            self.snake.cells().drop_last()
        } else {
            self.snake.cells()
        };
        moved_cells(cells, h, h == self.food || item_cell(self.bonus_food) == Some(h))
    }

    /// The second snake's cells at the end of a tick from the middle state
    /// at `now` (Unix seconds) in which no snake dies (empty when there is
    /// none): poison under its new head takes its tail unless the first
    /// snake took the poison, and it grows when its head lands on the bonus
    /// food the first did not take, or on the food the first did not reach.
    pub open spec fn second_after(&self, now: u64) -> Seq<Point> {
        match self.player2 {
            Some(p2) => {
                let h1 = self.first_head(now);
                let h2 = self.second_head(now)->0;
                let cells = if item_cell(self.poison_food) == Some(h2) && item_cell(self.poison_food) != Some(h1) && p2.cells().len()
                    > 1 {
                    p2.cells().drop_last()
                } else {
                    p2.cells()
                };
                let grow = (item_cell(self.bonus_food) == Some(h2) && item_cell(self.bonus_food) != Some(h1)) || (h2 == self.food
                    && h1 != self.food);
                moved_cells(cells, h2, grow)
            },
            None => Seq::empty(),
        }
    }

    /// Whether the first snake runs into its own body at `now` (Unix
    /// seconds) from the middle of a tick, `o` being the game the tick
    /// started from (whose power-up decides invincibility): the new head
    /// lands on a cell of the body left after any poison, other than a tail
    /// that moves away.
    pub open spec fn first_bites_itself(&self, o: Game, now: u64) -> bool {
        let h = self.first_head(now);
        let cells = if item_cell(self.poison_food) == Some(h) && self.snake.cells().len() > 1 {
            self.snake.cells().drop_last()
        } else {
            self.snake.cells()
        };
        crate::game::body_hit(cells, h, h == self.food || item_cell(self.bonus_food) == Some(h), o.invincible(now))
    }

    /// Whether the first snake heads into a wall at `now` (Unix seconds):
    /// nothing is queued for it, no bot steers it, and one step along its
    /// heading ends on a wall (see `resolve_head`).
    pub open spec fn heading_into_wall(&self, now: u64) -> bool {
        &&& self.snake.direction_queue@.len() == 0
        &&& !self.auto_pilot && self.mode != GameMode::BotVsBot
        &&& self.resolve_head(spec_step(self.snake.cells()[0], self.snake.direction), now).1
    }

    /// The middle of a tick at `now_ms` (milliseconds) and `now_s` (Unix
    /// seconds): the Battle Royale zone, the timed obstacles of Survival and
    /// Evolution, the bots, the queued turns, the
    /// items and the magnet (see `zone_phase`, `spawn_phase`,
    /// `autopilot_phase`, `apply_input`, `manage_items` and
    /// `apply_magnet_at`); in snow the bots hesitate with chance 1 in 5. A
    /// snake heading into a wall still does; the zone and the obstacle timer
    /// move on exactly when due, and a snake with queued turns takes the
    /// first of them.
    #[verifier::rlimit(60)]
    fn board_phases(&mut self, now_ms: u64, now_s: u64)
        requires
            old(self).wf(),
            (old(self).width as int) * (old(self).height as int) < 65535,
        ensures
            final(self).wf(),
            final(self).mode == old(self).mode,
            final(self).width == old(self).width,
            final(self).height == old(self).height,
            final(self).score == old(self).score,
            final(self).lives == old(self).lives,
            final(self).state == old(self).state,
            final(self).stats == old(self).stats,
            final(self).combo == old(self).combo,
            final(self).campaign_level == old(self).campaign_level,
            final(self).food_eaten_session == old(self).food_eaten_session,
            final(self).start_time == old(self).start_time,
            final(self).high_score == old(self).high_score,
            final(self).high_scores@ == old(self).high_scores@,
            final(self).used_bot_this_session == old(self).used_bot_this_session,
            final(self).player2 is Some == old(self).player2 is Some,
            old(self).heading_into_wall(now_s) ==> final(self).heading_into_wall(now_s),
            old(self).zone_due(now_ms) ==> final(self).safe_zone_margin == old(self).safe_zone_margin + 1
                && final(self).last_shrink_time == now_ms,
            !old(self).zone_due(now_ms) ==> final(self).safe_zone_margin == old(self).safe_zone_margin
                && final(self).last_shrink_time == old(self).last_shrink_time,
            old(self).spawn_due(now_ms) ==> final(self).last_obstacle_spawn_time == now_ms,
            !old(self).spawn_due(now_ms) ==> final(self).last_obstacle_spawn_time == old(self).last_obstacle_spawn_time,
            final(self).snake.cells() == old(self).snake.cells(),
            old(self).snake.direction_queue@.len() > 0 ==> final(self).snake.direction == old(self).snake.direction_queue@[0]
                && final(self).snake.direction_queue@ == old(self).snake.direction_queue@.drop_first(),
            old(self).snake.direction_queue@.len() == 0 && !old(self).auto_pilot && old(self).mode != GameMode::BotVsBot
                ==> final(self).snake.direction == old(self).snake.direction && final(self).snake.direction_queue@.len() == 0,
            !old(self).zone_due(now_ms) && !old(self).power_active(PowerUpType::Magnet, now_s) ==> final(self).food == old(self).food,
            item_cell(final(self).poison_food) == Some(final(self).food) ==> item_cell(old(self).poison_food) == Some(final(self).food)
                || old(self).zone_due(now_ms) || old(self).power_active(PowerUpType::Magnet, now_s),
            cells_of(final(self).player2) == cells_of(old(self).player2),
            old(self).player2 matches Some(a) ==> final(self).player2 matches Some(b) && (a.direction_queue@.len() > 0
                ==> b.direction == a.direction_queue@[0]) && (a.direction_queue@.len() == 0 && old(self).mode != GameMode::PlayerVsBot
                && old(self).mode != GameMode::BotVsBot ==> b.direction == a.direction),
    {
        let ghost g0 = *self;
        self.zone_phase(now_ms);
        let ghost g1 = *self;
        proof {
            lemma_wall_kept(g0, g1, now_s);
        }
        self.spawn_phase(now_ms);
        let ghost g2 = *self;
        proof {
            lemma_wall_kept(g1, g2, now_s);
        }
        let hesitate = self.weather == Weather::Snow && gen_ratio(&mut self.rng, 1, 5);
        self.autopilot_phase(now_s, hesitate);
        let ghost g3 = *self;
        proof {
            lemma_wall_kept(g2, g3, now_s);
        }
        self.apply_input();
        let ghost g4 = *self;
        proof {
            lemma_wall_kept(g3, g4, now_s);
        }
        self.manage_items(now_ms);
        let ghost g5 = *self;
        proof {
            lemma_wall_kept(g4, g5, now_s);
        }
        self.apply_magnet_at(now_s);
        proof {
            lemma_wall_kept(g5, *self, now_s);
        }
    }

    /// What a tick of play at `now_ms` (milliseconds) leaves of the game
    /// `o`: a snapshot of `o` at the end of the history (the oldest dropped
    /// beyond fifty); a Time Attack past sixty seconds costs a life ("Time's
    /// up!" when it was the last), a Speedrun at fifty foods is won; at most
    /// one life is lost and at most two gained; a snake heading into a wall
    /// dies unless the game is won; and when play goes on with no life lost,
    /// the snakes have moved as `first_after` and `second_after` say from a
    /// middle state (see `tick_middle`), unless a head lands on a power-up, and a first
    /// head landing on the food counts one more food eaten; a first snake
    /// running into its own body (see `first_bites_itself`) or onto a mine,
    /// while not invincible, loses a life unless the game is won.
    pub open spec fn tick_outcome(&self, o: Game, now_ms: u64) -> bool {
        &&& self.history@.len() > 0 && snapshot_of(self.history@.last(), o)
        &&& self.history@ == (if o.history@.len() + 1 > 50 {
            o.history@.push(self.history@.last()).drop_first()
        } else {
            o.history@.push(self.history@.last())
        })
        &&& (o.mode == GameMode::TimeAttack && sat_sub(now_ms as int, o.start_time as int) >= 60000 ==> self.lives == o.lives - 1
            && self.just_died && (self.lives == 0 ==> self.death_message@ == "Time's up!"@))
        &&& (o.mode == GameMode::Speedrun && o.food_eaten_session >= 50 ==> self.lives == o.lives && (self.state
            == GameState::GameWon || self.state == GameState::EnterName))
        &&& o.lives - 1 <= self.lives <= o.lives + 2
        &&& (o.heading_into_wall((now_ms / 1000) as u64) ==> (self.lives == o.lives - 1 && self.just_died) || (self.lives == o.lives
            && (self.state == GameState::GameWon || self.state == GameState::EnterName)))
        &&& (!(o.mode == GameMode::TimeAttack && sat_sub(now_ms as int, o.start_time as int) >= 60000) && !(o.mode
            == GameMode::Speedrun && o.food_eaten_session >= 50) ==> exists|m: Game| #[trigger] m.tick_middle(o, now_ms) && {
            let now_s = (now_ms / 1000) as u64;
            let goes_on = self.state == GameState::Playing && self.lives >= o.lives;
            &&& (goes_on && m.no_power_up_at_heads(now_s) ==> self.snake.cells() == m.first_after(now_s) && cells_of(self.player2)
                == m.second_after(now_s))
            &&& (goes_on && m.first_head(now_s) == m.food ==> self.stats.total_food_eaten >= o.stats.total_food_eaten + 1)
            &&& (m.first_bites_itself(o, now_s) ==> (self.lives == o.lives - 1 && self.just_died) || self.state
                == GameState::GameWon || self.state == GameState::EnterName)
            &&& (!o.invincible(now_s) && m.mines@.contains(m.first_head(now_s)) ==> (self.lives == o.lives - 1 && self.just_died)
                || self.state == GameState::GameWon || self.state == GameState::EnterName)
        })
    }

    /// One tick of play at `now` (milliseconds since the Unix epoch; power-up
    /// times are in seconds). Outside play nothing happens. In play the state
    /// is saved for a step back in time (see `save_history_state`), then in
    /// turn: the boss appears, moves and fires (see `spawn_boss` and
    /// `advance_boss`), the weather changes and lightning may strike (see
    /// `weather_phase`), the spectators chat (see `chat_phase`), the lasers
    /// fly (see `laser_phase`); a Time Attack ends after sixty seconds and a
    /// Speedrun is won at fifty foods; the Battle Royale zone shrinks (see
    /// `zone_phase`), Survival and Evolution change their obstacles (see
    /// `spawn_phase`), the bots choose their moves (see `autopilot_phase`;
    /// in snow they hesitate with chance 1 in 5), queued turns take effect,
    /// items come and go (see `manage_items`), the magnet pulls the food;
    /// then the heads move (see `calculate_final_heads_at`), crashes and
    /// mines kill (see `check_crashes` and `detonate`), food is eaten and the
    /// tick ends (see `eat_extras`, `eat_food` and `settle`). When the tick
    /// goes on (no death, no win), the first snake has moved as
    /// `first_after` says from a middle state that `tick_middle` relates to
    /// the game before, unless a head lands on a power-up.
    #[verifier::rlimit(100)]
    pub fn update_at(&mut self, now_ms: u64)
        requires
            old(self).wf(),
            old(self).state == GameState::Playing ==> old(self).tick_ready(),
        ensures
            final(self).wf(),
            old(self).state != GameState::Playing ==> *final(self) == *old(self),
            final(self).mode == old(self).mode,
            final(self).width == old(self).width,
            final(self).height == old(self).height,
            old(self).state == GameState::Playing ==> final(self).tick_outcome(*old(self), now_ms),
    {
        if self.state != GameState::Playing {
            return;
        }
        let now_s = now_ms / 1000;
        self.save_history_state();
        let ghost g1 = *self;
        proof {
            lemma_wall_kept(*old(self), g1, now_s);
        }
        let mut hist: VecDeque<crate::game::HistoryState> = VecDeque::new();
        std::mem::swap(&mut hist, &mut self.history);
        let frozen = self.is_power_active(PowerUpType::TimeFreeze, now_s);
        let ghost g2 = *self;
        self.spawn_boss();
        let ghost g3 = *self;
        proof {
            lemma_wall_kept(g2, g3, now_s);
        }
        self.advance_boss(now_s, frozen);
        let ghost g4 = *self;
        proof {
            lemma_wall_kept(g3, g4, now_s);
        }
        self.weather_phase();
        let ghost g5 = *self;
        proof {
            lemma_wall_kept(g4, g5, now_s);
        }
        self.chat_phase(now_ms);
        let ghost g6 = *self;
        proof {
            lemma_wall_kept(g5, g6, now_s);
        }
        let invincible = self.mode == GameMode::Zen || self.is_power_active(PowerUpType::Invincibility, now_s);
        let (laser1, laser2) = self.laser_phase(frozen, invincible);
        proof {
            lemma_wall_kept(g6, *self, now_s);
        }
        if self.mode == GameMode::TimeAttack && (if now_ms >= self.start_time { now_ms - self.start_time } else { 0 }) >= 60000 {
            self.handle_death("Time's up!", now_ms);
            self.history = hist;
            return;
        }
        if self.mode == GameMode::Speedrun && self.food_eaten_session >= 50 {
            self.handle_win(now_ms);
            self.history = hist;
            return;
        }
        let ghost pre = *self;
        proof {
            assert(pre.food == old(self).food);
            assert(pre.poison_food == old(self).poison_food);
            assert(pre.power_up == old(self).power_up);
            assert(pre.stats == old(self).stats);
            assert(pre.last_shrink_time == old(self).last_shrink_time);
            assert(pre.safe_zone_margin == old(self).safe_zone_margin);
            assert(pre.auto_pilot == old(self).auto_pilot);
            assert(pre.snake.direction_queue@ == old(self).snake.direction_queue@);
            assert(pre.snake.direction == old(self).snake.direction);
        }
        self.board_phases(now_ms, now_s);
        let ghost m = *self;
        proof {
            assert(m.tick_middle(*old(self), now_ms));
        }
        let (h1, h2, wall1, wall2) = self.calculate_final_heads_at(now_s);
        let (crash1, crash2) = self.check_crashes(h1, h2, wall1, wall2, invincible);
        let (mine1, mine2) = self.detonate(h1, h2, invincible);
        let old_session = self.food_eaten_session;
        let multiplier = self.is_power_active(PowerUpType::ScoreMultiplier, now_s);
        let (bonus1, bonus2) = self.eat_extras(h1, h2, multiplier, now_ms);
        let (food1, food2, won) = self.eat_food(h1, h2, multiplier, now_ms);
        if !won {
            self.settle(
                h1,
                h2,
                laser1 || crash1 || mine1,
                laser2 || crash2 || mine2,
                bonus1 || food1,
                bonus2 || food2,
                invincible,
                now_ms,
                now_s,
                old_session,
            );
        }
        self.history = hist;
        proof {
            assert(m.tick_middle(*old(self), now_ms));
            if self.state == GameState::Playing && self.lives >= old(self).lives && m.no_power_up_at_heads(now_s) {
                assert(self.snake.cells() == m.first_after(now_s));
                assert(h2 == m.second_head(now_s));
                if m.player2 is Some {
                    assert(bonus2 == (item_cell(m.bonus_food) == h2 && item_cell(m.bonus_food) != Some(h1)));
                    assert(food2 == (h2 == Some(m.food) && h1 != m.food));
                    assert(cells_of(self.player2) == m.second_after(now_s));
                } else {
                    assert(self.player2 is None);
                    assert(cells_of(self.player2) == m.second_after(now_s));
                }
            }
        }
    }

    /// One tick of play by the system clock (see `update_at`). A game that
    /// is not `tick_ready` (its counters near their limits, no life left, a
    /// board too large for the searches) is left as it is.
    pub fn update(&mut self)
        requires
            old(self).wf(),
        ensures
            final(self).wf(),
            old(self).state != GameState::Playing || !old(self).tick_ready() ==> *final(self) == *old(self),
            old(self).state == GameState::Playing && old(self).tick_ready() ==> exists|now_ms: u64| #[trigger] final(self).tick_outcome(
                *old(self),
                now_ms,
            ),
    {
        if self.state == GameState::Playing && !self.is_tick_ready() {
            return;
        }
        let now = crate::clock::now_millis();
        self.update_at(now);
    }
}

/// A snake heading into a wall keeps doing so when its head, heading and
/// queue stay, the safe zone only shrinks, no portal appears outside it, and
/// no power-up that lets it pass through walls starts.
proof fn lemma_wall_kept(o: Game, g: Game, now: u64)
    requires
        o.wf(),
        g.snake.cells().len() > 0,
        o.heading_into_wall(now) ==> g.snake.cells()[0] == o.snake.cells()[0] && g.snake.direction == o.snake.direction
            && g.snake.direction_queue@.len() == 0,
        g.mode == o.mode,
        g.auto_pilot == o.auto_pilot,
        g.wrap_mode == o.wrap_mode,
        g.width == o.width,
        g.height == o.height,
        g.safe_zone_margin >= o.safe_zone_margin,
        g.stats == o.stats,
        g.power_up == o.power_up || g.power_up is None || (g.power_up matches Some(pu) && pu.activation_time is None),
        g.portals == o.portals || (o.portals is None && (g.portals matches Some((a, b)) && inside(a, o.width, o.height, o.safe_zone_margin)
            && inside(b, o.width, o.height, o.safe_zone_margin))),
    ensures
        o.heading_into_wall(now) ==> g.heading_into_wall(now),
{
    if o.heading_into_wall(now) {
        let p = spec_step(o.snake.cells()[0], o.snake.direction);
        assert(o.portal_exit(p) is None);
        assert(!o.wraps(now));
        assert(!inside(p, o.width, o.height, o.margin()));
        assert(g.portal_exit(p) is None);
        assert(!g.power_active(crate::kinds::PowerUpType::PassThroughWalls, now) || o.power_active(
            crate::kinds::PowerUpType::PassThroughWalls,
            now,
        ));
        assert(!g.wraps(now));
        assert(!inside(p, g.width, g.height, g.margin()));
    }
}

} // verus!
