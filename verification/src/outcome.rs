use crate::game::{cells_of, coins_for, food_points, next_combo, on_board, Effect, Game};
use crate::kinds::{spec_score_factor, Difficulty, GameMode, GameState};
use crate::save::item_cell;
use crate::snake::Point;
use vstd::prelude::*;

verus! {

/// Points for one food, and their coins, stay small while the combo does.
proof fn lemma_food_bounds(base: int, d: Difficulty, multiplier: bool, combo: int, m: int)
    requires
        1 <= base <= 5,
        0 <= combo <= 0x1_0000,
        0 <= m <= 255,
    ensures
        0 <= food_points(base, d, multiplier, combo) <= 0x64_0000,
        0 <= coins_for(food_points(base, d, multiplier, combo), m) <= 0x1500_0000,
{
    let f = spec_score_factor(d) as int;
    assert(1 <= f <= 10);
    let b = if multiplier { 2 * base } else { base };
    let c = if combo >= 1 { combo } else { 1 };
    assert(b * f * c <= 10 * 10 * 0x1_0000) by (nonlinear_arith)
        requires
            1 <= b <= 10,
            1 <= f <= 10,
            1 <= c <= 0x1_0000,
    ;
    assert(b * f * c >= 0) by (nonlinear_arith)
        requires
            1 <= b,
            1 <= f,
            1 <= c,
    ;
    let pts = food_points(base, d, multiplier, combo);
    assert(pts == b * f * c);
    assert(2 * pts * (5 + m) <= 2 * 0x64_0000 * 260) by (nonlinear_arith)
        requires
            0 <= pts <= 0x64_0000,
            0 <= m <= 255,
    ;
    assert(2 * pts * (5 + m) >= 0) by (nonlinear_arith)
        requires
            0 <= pts,
            0 <= m,
    ;
}

/// The message with which a tick ends when snakes die: both, the first
/// (the player's own death in the single-snake modes, else a win for the
/// second), or the second.
pub open spec fn death_cause(both: bool, first: bool, mode: GameMode) -> Seq<char> {
    if both {
        "Draw! Both snakes died!"@
    } else if first {
        if solo_mode(mode) { "You Died!"@ } else { "Player 2 Wins!"@ }
    } else {
        "Player 1 Wins!"@
    }
}

/// The cells of a snake whose head moves to `h`: the tail follows unless it
/// grows.
pub open spec fn moved_cells(cells: Seq<Point>, h: Point, grow: bool) -> Seq<Point> {
    if grow { seq![h] + cells } else { (seq![h] + cells).drop_last() }
}

/// The modes with one snake, in which a death is the player's own.
pub open spec fn solo_mode(mode: GameMode) -> bool {
    mode == GameMode::SinglePlayer || mode == GameMode::TimeAttack || mode == GameMode::Speedrun || mode == GameMode::Survival
        || mode == GameMode::DailyChallenge || mode == GameMode::BossRush
}

impl Game {
    /// Counters are far enough from their limits for the end of a tick.
    pub open spec fn end_headroom(&self) -> bool {
        &&& self.score <= 0xC000_0000
        &&& self.stats.total_score <= 0xC000_0000
        &&& self.stats.coins <= 0x7000_0000
        &&& self.stats.total_food_eaten <= 0xC000_0000
        &&& self.stats.games_played <= 0xC000_0000
        &&& self.stats.total_time_s <= 0xC000_0000_0000_0000
        &&& self.food_eaten_session <= 0xC000_0000
        &&& self.combo <= 0xFFF0
        &&& self.campaign_level <= 0xFFF0
        &&& 0 < self.lives <= 0xC000_0000
    }

    /// Counters are far enough from their limits to eat the food.
    pub open spec fn food_headroom(&self) -> bool {
        &&& self.score <= 0xD000_0000
        &&& self.stats.total_score <= 0xD000_0000
        &&& self.stats.coins <= 0xA000_0000
        &&& self.stats.total_food_eaten <= 0xD000_0000
        &&& self.stats.games_played <= 0xC000_0000
        &&& self.stats.total_time_s <= 0xC000_0000_0000_0000
        &&& self.food_eaten_session <= 0xD000_0000
        &&& self.combo <= 0xFFF8
        &&& self.campaign_level <= 0xFFF0
        &&& 0 < self.lives <= 0xC000_0000
        &&& self.stats.upgrade_coin_multiplier <= 255
    }

    /// Bonus food and poison under the heads `h1` and `h2` are eaten (see
    /// `check_bonus_food_collision_at` and `check_poison_food_collision`).
    /// Returns which snakes ate bonus food.
    #[verifier::rlimit(40)]
    pub(crate) fn eat_extras(&mut self, h1: Point, h2: Option<Point>, multiplier: bool, now_ms: u64) -> (r: (bool, bool))
        requires
            old(self).wf(),
            old(self).end_headroom(),
            old(self).stats.upgrade_coin_multiplier <= 255,
        ensures
            final(self).wf(),
            final(self).food_headroom(),
            final(self).lives == old(self).lives,
            final(self).state == old(self).state,
            final(self).mode == old(self).mode,
            final(self).width == old(self).width,
            final(self).height == old(self).height,
            final(self).food == old(self).food,
            final(self).player2 is Some == old(self).player2 is Some,
            r.0 == (old(self).bonus_food matches Some((b, _)) && b == h1),
            final(self).snake.cells() == (if item_cell(old(self).poison_food) == Some(h1) && old(self).snake.cells().len() > 1 {
                old(self).snake.cells().drop_last()
            } else {
                old(self).snake.cells()
            }),
            r.1 == (!r.0 && h2 is Some && item_cell(old(self).bonus_food) == h2),
            old(self).player2 matches Some(a) ==> final(self).player2 matches Some(b) && b.cells() == (if h2 is Some && item_cell(
                old(self).poison_food,
            ) == h2 && item_cell(old(self).poison_food) != Some(h1) && a.cells().len() > 1 {
                a.cells().drop_last()
            } else {
                a.cells()
            }),
            final(self).power_up == old(self).power_up,
            final(self).stats.total_food_eaten == old(self).stats.total_food_eaten + (if r.0 { 1int } else { 0 }) + (if r.1 {
                1int
            } else {
                0
            }),
    {
        proof {
            lemma_food_bounds(5, self.difficulty, multiplier, (self.combo + 1) as int, self.stats.upgrade_coin_multiplier as int);
            lemma_food_bounds(5, self.difficulty, multiplier, 1, self.stats.upgrade_coin_multiplier as int);
        }
        let grow1 = self.check_bonus_food_collision_at(h1, multiplier, now_ms);
        proof {
            lemma_food_bounds(5, self.difficulty, multiplier, (self.combo + 1) as int, self.stats.upgrade_coin_multiplier as int);
            lemma_food_bounds(5, self.difficulty, multiplier, 1, self.stats.upgrade_coin_multiplier as int);
        }
        let grow2 = match h2 {
            Some(q) => self.check_bonus_food_collision_at(q, multiplier, now_ms),
            None => false,
        };
        self.check_poison_food_collision(h1, 1);
        match h2 {
            Some(q) => self.check_poison_food_collision(q, 2),
            None => {},
        }
        (grow1, grow2)
    }

    /// The food under a head is eaten, the first snake's head first (see
    /// `process_food_collision_at`). When no free cell is left for new food,
    /// the snake that ate moves onto it and the game is won (see
    /// `handle_win`), and `r.2` is set; otherwise `r.0` and `r.1` tell which
    /// snakes ate the food.
    #[verifier::rlimit(40)]
    pub(crate) fn eat_food(&mut self, h1: Point, h2: Option<Point>, multiplier: bool, now_ms: u64) -> (r: (bool, bool, bool))
        requires
            old(self).wf(),
            old(self).food_headroom(),
        ensures
            final(self).wf(),
            !r.2 ==> final(self).headroom() && final(self).lives > 0,
            final(self).lives == old(self).lives,
            final(self).mode == old(self).mode,
            final(self).width == old(self).width,
            final(self).height == old(self).height,
            final(self).player2 is Some == old(self).player2 is Some,
            r.2 ==> final(self).state == GameState::GameWon || final(self).state == GameState::EnterName,
            !r.2 ==> final(self).state == old(self).state,
            r.0 == (h1 == old(self).food),
            r.1 == (!r.0 && h2 == Some(old(self).food)),
            !r.2 ==> final(self).snake.cells() == old(self).snake.cells() && final(self).power_up == old(self).power_up
                && cells_of(final(self).player2) == cells_of(old(self).player2),
            !r.2 ==> final(self).stats.total_food_eaten == old(self).stats.total_food_eaten + (if r.0 || r.1 { 1int } else { 0 }),
    {
        proof {
            lemma_food_bounds(1, self.difficulty, multiplier, (self.combo + 1) as int, self.stats.upgrade_coin_multiplier as int);
            lemma_food_bounds(1, self.difficulty, multiplier, 1, self.stats.upgrade_coin_multiplier as int);
        }
        if h1 == self.food {
            if !self.process_food_collision_at(h1, multiplier, now_ms) {
                self.snake.move_to(h1, true);
                proof {
                    assert forall|i: int| 0 <= i < self.snake.cells().len() implies crate::game::on_board(
                        #[trigger] self.snake.cells()[i],
                        self.width,
                        self.height,
                    ) by {
                        if i > 0 {
                            assert(self.snake.cells()[i] == old(self).snake.cells()[i - 1]);
                        }
                    }
                }
                self.handle_win(now_ms);
                return (true, false, true);
            }
            return (true, false, false);
        }
        match h2 {
            Some(q) => {
                if q == self.food {
                    if !self.process_food_collision_at(q, multiplier, now_ms) {
                        let ghost before = *self;
                        match &mut self.player2 {
                            Some(p2) => {
                                p2.move_to(q, true);
                            },
                            None => {},
                        }
                        proof {
                            if self.player2 is Some {
                                let p2 = self.player2->0;
                                let a = before.player2->0;
                                assert forall|i: int| 0 <= i < p2.cells().len() implies crate::game::on_board(
                                    #[trigger] p2.cells()[i],
                                    self.width,
                                    self.height,
                                ) by {
                                    if i > 0 {
                                        assert(p2.cells()[i] == a.cells()[i - 1]);
                                    }
                                }
                            }
                        }
                        self.handle_win(now_ms);
                        return (false, true, true);
                    }
                    return (false, true, false);
                }
            },
            None => {},
        }
        (false, false, false)
    }

    /// The rest of the end of a tick, the heads going to `h1` and `h2`, with
    /// `dead1` and `dead2` telling which snakes already died and `grow1`
    /// and `grow2` which ate: bodies are checked (see
    /// `check_body_collisions`); a death ends the tick (see `death_cause`;
    /// against the bot the result is rated and the statistics stored).
    /// Otherwise power-ups are taken, obstacles added (see
    /// `add_obstacles_if_needed`) and the snakes move.
    #[verifier::rlimit(60)]
    pub(crate) fn settle(
        &mut self,
        h1: Point,
        h2: Option<Point>,
        dead1: bool,
        dead2: bool,
        grow1: bool,
        grow2: bool,
        invincible: bool,
        now_ms: u64,
        now_s: u64,
        old_session: u32,
    )
        requires
            old(self).wf(),
            old(self).headroom(),
            old(self).lives > 0,
            !dead1 ==> on_board(h1, old(self).width, old(self).height),
            (h2 is Some) == (old(self).player2 is Some),
            (h2 matches Some(q) && !dead2) ==> on_board(h2->0, old(self).width, old(self).height),
        ensures
            final(self).wf(),
            final(self).mode == old(self).mode,
            final(self).width == old(self).width,
            final(self).height == old(self).height,
            ({
                let d1 = dead1 || old(self).body_dies1(h1, h2, grow1, grow2, invincible);
                let d2 = dead2 || old(self).body_dies2(h1, h2, grow1, grow2, invincible);
                &&& d1 || d2 ==> final(self).lives == old(self).lives - 1 && final(self).just_died
                &&& (d1 || d2) && final(self).lives == 0 ==> final(self).death_message@ == death_cause(d1 && d2, d1, old(self).mode)
                &&& !(d1 || d2) ==> final(self).lives >= old(self).lives
                &&& !(d1 || d2) && !old(self).power_up_at(h1) && (h2 matches Some(q) ==> !old(self).power_up_at(q))
                    ==> final(self).snake.cells() == moved_cells(old(self).snake.cells(), h1, grow1)
                &&& !(d1 || d2) ==> final(self).stats.total_food_eaten == old(self).stats.total_food_eaten
                &&& !(d1 || d2) ==> (final(self).player2 is Some == old(self).player2 is Some)
                &&& !(d1 || d2) && !old(self).power_up_at(h1) && (h2 matches Some(q) ==> !old(self).power_up_at(q)) && h2 is Some
                    ==> cells_of(final(self).player2) == moved_cells(cells_of(old(self).player2), h2->0, grow2)
            }),
            old(self).lives - 1 <= final(self).lives <= old(self).lives + 2,
    {
        let (b1, b2) = self.check_body_collisions(h1, h2, invincible, grow1, grow2);
        let d1 = dead1 || b1;
        let d2 = dead2 || b2;
        if d1 && d2 {
            if self.mode == GameMode::PlayerVsBot {
                self.effects.push(Effect::EloResult { player_won: false, draw: true });
                self.effects.push(Effect::SaveStats);
            }
            self.handle_death("Draw! Both snakes died!", now_ms);
            return;
        } else if d1 {
            if self.mode == GameMode::SinglePlayer || self.mode == GameMode::TimeAttack || self.mode == GameMode::Speedrun
                || self.mode == GameMode::Survival || self.mode == GameMode::DailyChallenge || self.mode == GameMode::BossRush {
                self.handle_death("You Died!", now_ms);
            } else {
                if self.mode == GameMode::PlayerVsBot {
                    self.effects.push(Effect::EloResult { player_won: false, draw: false });
                    self.effects.push(Effect::SaveStats);
                }
                self.handle_death("Player 2 Wins!", now_ms);
            }
            return;
        } else if d2 {
            if self.mode == GameMode::PlayerVsBot {
                self.effects.push(Effect::EloResult { player_won: true, draw: false });
                self.effects.push(Effect::SaveStats);
            }
            self.handle_death("Player 1 Wins!", now_ms);
            return;
        }
        self.process_power_up_collision_at(h1, now_s);
        match h2 {
            Some(q) => self.process_power_up_collision_at(q, now_s),
            None => {},
        }
        self.add_obstacles_if_needed(old_session, h1);
        self.snake.move_to(h1, grow1);
        match &mut self.player2 {
            Some(p2) => {
                match h2 {
                    Some(q) => p2.move_to(q, grow2),
                    None => {},
                }
            },
            None => {},
        }
    }

    /// What `check_body_collisions` says of the first snake.
    pub open spec fn body_dies1(&self, h1: Point, h2: Option<Point>, grow1: bool, grow2: bool, invincible: bool) -> bool {
        crate::game::body_hit(self.snake.cells(), h1, grow1, invincible) || (h2 is Some && self.player2 is Some
            && crate::game::body_hit(crate::game::cells_of(self.player2), h1, grow2, invincible))
    }

    /// What `check_body_collisions` says of the second snake.
    pub open spec fn body_dies2(&self, h1: Point, h2: Option<Point>, grow1: bool, grow2: bool, invincible: bool) -> bool {
        match h2 {
            Some(q) => (self.player2 is Some && crate::game::body_hit(crate::game::cells_of(self.player2), q, grow2, invincible))
                || crate::game::body_hit(self.snake.cells(), q, grow1, invincible),
            None => false,
        }
    }
}

} // verus!
