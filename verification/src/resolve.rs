use crate::color::Color;
use crate::game::{abs_diff, inside, on_board, Effect, Game};
use crate::kinds::{GameMode, Laser};
use crate::lasers::extends;
use crate::snake::Point;
use crate::tick::effects_extend;
use vstd::prelude::*;

verus! {

/// Whether `p` lies in the blast of a mine at `m`: the cells around it and
/// its own, inside the walls of a `w` by `h` board.
pub open spec fn in_blast(p: Point, m: Point, w: u16, h: u16) -> bool {
    abs_diff(p.x as int, m.x as int) <= 1 && abs_diff(p.y as int, m.y as int) <= 1 && inside(p, w, h, 0)
}

impl Game {
    /// Whether a laser not shot by `player` is at `p`.
    pub open spec fn laser_at(&self, p: Point, player: u8) -> bool {
        exists|i: int| 0 <= i < self.lasers@.len() && #[trigger] self.lasers@[i].player != player && self.lasers@[i].position == p
    }

    /// Whether the first snake runs into the boss by moving to `p`: the boss
    /// stands there, or on the snake.
    pub open spec fn boss_hits(&self, p: Point) -> bool {
        self.boss matches Some(b) && (b.position == p || self.snake.cells().contains(b.position))
    }

    /// Whether `p` is outside the Battle Royale safe zone.
    pub open spec fn out_of_zone(&self, p: Point) -> bool {
        self.mode == GameMode::BattleRoyale && !inside(p, self.width, self.height, self.safe_zone_margin)
    }

    /// Whether lightning struck the column of `p` in this tick.
    pub open spec fn lightning_at(&self, p: Point) -> bool {
        self.lightning_column == Some(p.x)
    }

    /// Whether the first snake dies moving to `h1` (having hit a wall when
    /// `wall1`), the second moving to `h2`: a wall or the edge of the safe
    /// zone; unless `invincible`, an obstacle, the boss, a laser of another
    /// or the lightning; or both heads on one cell.
    pub open spec fn crash1(&self, h1: Point, h2: Option<Point>, wall1: bool, invincible: bool) -> bool {
        ||| wall1
        ||| self.out_of_zone(h1)
        ||| !invincible && (self.obstacles@.contains(h1) || self.boss_hits(h1) || self.laser_at(h1, 1) || self.lightning_at(h1))
        ||| h2 == Some(h1)
    }

    /// Whether the second snake dies moving to `h2` (see `crash1`); it does
    /// not run into the boss.
    pub open spec fn crash2(&self, h1: Point, h2: Point, wall2: bool, invincible: bool) -> bool {
        ||| wall2
        ||| self.out_of_zone(h2)
        ||| !invincible && (self.obstacles@.contains(h2) || self.laser_at(h2, 2) || self.lightning_at(h2))
        ||| h1 == h2
    }

    fn laser_at_exec(&self, p: Point, player: u8) -> (r: bool)
        ensures
            r == self.laser_at(p, player),
    {
        let mut i: usize = 0;
        while i < self.lasers.len()
            invariant
                i <= self.lasers@.len(),
                forall|j: int| 0 <= j < i ==> !(#[trigger] self.lasers@[j].player != player && self.lasers@[j].position == p),
            decreases self.lasers@.len() - i,
        {
            let l = self.lasers[i];
            if l.player != player && l.position == p {
                return true;
            }
            i = i + 1;
        }
        false
    }

    /// Which snakes die as the heads move to `h1` and `h2` (see `crash1`
    /// and `crash2`), before mines, food and bodies are looked at.
    pub fn check_crashes(&self, h1: Point, h2: Option<Point>, wall1: bool, wall2: bool, invincible: bool) -> (r: (bool, bool))
        requires
            self.wf(),
        ensures
            r.0 == self.crash1(h1, h2, wall1, invincible),
            r.1 == (match h2 {
                Some(q) => self.crash2(h1, q, wall2, invincible),
                None => wall2,
            }),
    {
        let zone = self.mode == GameMode::BattleRoyale;
        let m = self.safe_zone_margin;
        let mut d1 = wall1 || (zone && !self.is_inside(h1, m));
        if !invincible {
            let boss_hit = match self.boss {
                Some(b) => b.position == h1 || self.snake.contains(b.position),
                None => false,
            };
            let struck = match self.lightning_column {
                Some(c) => h1.x == c,
                None => false,
            };
            if self.obstacles.contains(h1) || boss_hit || self.laser_at_exec(h1, 1) || struck {
                d1 = true;
            }
        }
        let mut d2 = wall2;
        match h2 {
            Some(q) => {
                if zone && !self.is_inside(q, m) {
                    d2 = true;
                }
                if !invincible {
                    let struck = match self.lightning_column {
                        Some(c) => q.x == c,
                        None => false,
                    };
                    if self.obstacles.contains(q) || self.laser_at_exec(q, 2) || struck {
                        d2 = true;
                    }
                }
                if q == h1 {
                    d1 = true;
                    d2 = true;
                }
            },
            None => {},
        }
        (d1, d2)
    }

    /// A mine at `m` explodes: it is gone, with particles and a beep, and in
    /// the cells of its blast (see `in_blast`) obstacles and mines are
    /// destroyed, and a boss standing there loses five health; a boss that
    /// dies is rewarded and sends lasers out (see `reward_boss_kill` and
    /// `boss_burst`).
    #[verifier::rlimit(40)]
    fn explode_mine(&mut self, m: Point)
        requires
            old(self).wf(),
            old(self).score <= 0xD000_0000,
            old(self).campaign_level <= 0xFFFF,
        ensures
            final(self).wf(),
            final(self).laser_frame_but_mines(*old(self)),
            final(self).boss_hit_only(*old(self)),
            extends(old(self).lasers@, final(self).lasers@),
            forall|p: Point| #[trigger] final(self).obstacles.has(p) == (old(self).obstacles.has(p) && !in_blast(p, m, old(self).width, old(self).height)),
            forall|p: Point| #[trigger] final(self).mines.has(p) == (old(self).mines.has(p) && p != m && !in_blast(p, m, old(self).width, old(self).height)),
            effects_extend(old(self).effects@, final(self).effects@),
    {
        self.mines.remove(m);
        self.effects.push(Effect::Particles { x: m.x, y: m.y, count: 40, color: Color::Red, symbol: 'X' });
        self.effects.push(Effect::Beep);
        let ghost g1 = *self;
        proof {
            assert(self.lasers@.subrange(0, g1.lasers@.len() as int) =~= g1.lasers@);
            assert(self.effects@.subrange(0, g1.effects@.len() as int) =~= g1.effects@);
        }
        let mut dy: i32 = -1;
        while dy <= 1
            invariant
                -1 <= dy <= 2,
                self.wf(),
                self.laser_frame_but_mines(g1),
                self.boss_hit_only(g1),
                g1.score <= 0xD000_0000,
                g1.campaign_level <= 0xFFFF,
                extends(g1.lasers@, self.lasers@),
                effects_extend(g1.effects@, self.effects@),
                forall|p: Point| #[trigger] self.obstacles.has(p) == (g1.obstacles.has(p) && !(in_blast(p, m, g1.width, g1.height)
                    && p.y < m.y + dy)),
                forall|p: Point| #[trigger] self.mines.has(p) == (g1.mines.has(p) && !(in_blast(p, m, g1.width, g1.height) && p.y
                    < m.y + dy)),
            decreases 2 - dy,
        {
            let mut dx: i32 = -1;
            proof {
                assert(self.lasers@.subrange(0, g1.lasers@.len() as int) =~= self.lasers@.subrange(0, g1.lasers@.len() as int));
            }
            while dx <= 1
                invariant
                    -1 <= dx <= 2,
                    -1 <= dy <= 1,
                    self.wf(),
                    self.laser_frame_but_mines(g1),
                    self.boss_hit_only(g1),
                    g1.score <= 0xD000_0000,
                    g1.campaign_level <= 0xFFFF,
                    extends(g1.lasers@, self.lasers@),
                    effects_extend(g1.effects@, self.effects@),
                    forall|p: Point| #[trigger] self.obstacles.has(p) == (g1.obstacles.has(p) && !(in_blast(p, m, g1.width, g1.height)
                        && (p.y < m.y + dy || (p.y == m.y + dy && p.x < m.x + dx)))),
                    forall|p: Point| #[trigger] self.mines.has(p) == (g1.mines.has(p) && !(in_blast(p, m, g1.width, g1.height) && (
                    p.y < m.y + dy || (p.y == m.y + dy && p.x < m.x + dx)))),
                decreases 2 - dx,
            {
                let cx: i32 = m.x as i32 + dx;
                let cy: i32 = m.y as i32 + dy;
                let ghost prev = *self;
                let hit = cx > 0 && cx < (self.width - 1) as i32 && cy > 0 && cy < (self.height - 1) as i32;
                if hit {
                    let p = Point { x: cx as u16, y: cy as u16 };
                    self.blast_cell(p);
                }
                proof {
                    assert forall|q: Point| #[trigger] self.obstacles.has(q) == (prev.obstacles.has(q) && !(hit && q.x == cx && q.y
                        == cy)) by {
                        assert(self.obstacles@.contains(q) == self.obstacles.has(q));
                        assert(prev.obstacles@.contains(q) == prev.obstacles.has(q));
                    }
                    assert forall|q: Point| #[trigger] self.mines.has(q) == (prev.mines.has(q) && !(hit && q.x == cx && q.y == cy)) by {
                        assert(self.mines@.contains(q) == self.mines.has(q));
                        assert(prev.mines@.contains(q) == prev.mines.has(q));
                    }
                    assert forall|q: Point| in_blast(q, m, g1.width, g1.height) && q.x == cx && q.y == cy implies hit by {}
                    assert forall|q: Point| hit && q.x == cx && q.y == cy implies in_blast(q, m, g1.width, g1.height) by {}
                    assert(self.lasers@.subrange(0, g1.lasers@.len() as int) =~= g1.lasers@);
                }
                dx = dx + 1;
            }
            dy = dy + 1;
        }
        proof {
            assert(self.effects@.subrange(0, old(self).effects@.len() as int) =~= old(self).effects@);
            assert(self.lasers@.subrange(0, old(self).lasers@.len() as int) =~= old(self).lasers@);
            assert forall|p: Point| #[trigger] self.mines.has(p) == (old(self).mines.has(p) && p != m && !in_blast(
                p,
                m,
                old(self).width,
                old(self).height,
            )) by {
                assert(g1.mines@.contains(p) == g1.mines.has(p));
                assert(old(self).mines@.contains(p) == old(self).mines.has(p));
            }
        }
    }

    /// The blast of a mine reaches `p`: obstacle and mine there are gone and
    /// a boss there loses five health, dying at zero.
    fn blast_cell(&mut self, p: Point)
        requires
            old(self).wf(),
            on_board(p, old(self).width, old(self).height),
            old(self).score <= 0xDC00_0000,
            old(self).campaign_level <= 0x1_0000,
        ensures
            final(self).wf(),
            final(self).laser_frame_but_mines(*old(self)),
            final(self).boss_hit_only(*old(self)),
            extends(old(self).lasers@, final(self).lasers@),
            final(self).obstacles@ == old(self).obstacles@.remove(p),
            final(self).mines@ == old(self).mines@.remove(p),
            final(self).effects@ == old(self).effects@,
    {
        self.obstacles.remove(p);
        self.mines.remove(p);
        match self.boss {
            Some(b0) => {
                if b0.position == p {
                    let mut boss = b0;
                    boss.health = boss.health.saturating_sub(5);
                    if boss.health == 0 {
                        self.boss = None;
                        let ghost cl = self.campaign_level;
                        assert(1000 * cl <= 0x0400_0000) by (nonlinear_arith)
                            requires
                                cl <= 0x1_0000,
                        ;
                        self.reward_boss_kill();
                        let mut out = Vec::new();
                        std::mem::swap(&mut out, &mut self.lasers);
                        self.boss_burst(p, &mut out);
                        self.lasers = out;
                    } else {
                        self.boss = Some(boss);
                    }
                }
            },
            None => {},
        }
        proof {
            assert(self.lasers@.subrange(0, old(self).lasers@.len() as int) =~= old(self).lasers@);
        }
    }

    /// `laser_frame`, with the mines free to change as well.
    pub open spec fn laser_frame_but_mines(&self, o: Game) -> bool {
        &&& self.snakes_same(o)
        &&& self.width == o.width
        &&& self.height == o.height
        &&& self.wrap_mode == o.wrap_mode
        &&& self.mode == o.mode
        &&& self.food == o.food
        &&& self.bonus_food == o.bonus_food
        &&& self.poison_food == o.poison_food
        &&& self.power_up == o.power_up
        &&& self.portals == o.portals
        &&& self.weather == o.weather
        &&& self.lightning_column == o.lightning_column
        &&& self.safe_zone_margin == o.safe_zone_margin
        &&& self.lives == o.lives
        &&& self.state == o.state
        &&& self.stats == o.stats
        &&& self.combo == o.combo
        &&& self.food_eaten_session == o.food_eaten_session
        &&& self.start_time == o.start_time
        &&& self.last_shrink_time == o.last_shrink_time
        &&& self.last_obstacle_spawn_time == o.last_obstacle_spawn_time
        &&& self.last_food_time == o.last_food_time
        &&& self.high_score == o.high_score
        &&& self.high_scores@ == o.high_scores@
        &&& self.used_bot_this_session == o.used_bot_this_session
        &&& self.auto_pilot == o.auto_pilot
    }

    /// Mines under the heads explode unless `invincible` (see
    /// `explode_mine`), the first snake's before the second's, killing those
    /// snakes. Returns which snakes stepped on a mine.
    pub(crate) fn detonate(&mut self, h1: Point, h2: Option<Point>, invincible: bool) -> (r: (bool, bool))
        requires
            old(self).wf(),
            old(self).score <= 0xC000_0000,
            old(self).campaign_level <= 0xFFF0,
        ensures
            final(self).wf(),
            final(self).laser_frame_but_mines(*old(self)),
            final(self).score <= old(self).score + 2 * 0x0400_0000,
            final(self).campaign_level <= old(self).campaign_level + 2,
            final(self).boss matches Some(b) ==> old(self).boss matches Some(ob) && b.position == ob.position && b.move_timer
                == ob.move_timer && b.shoot_timer == ob.shoot_timer,
            r.0 == (!invincible && old(self).mines@.contains(h1)),
            r.1 == (!invincible && (h2 matches Some(q) && old(self).mines@.contains(q))),
            !r.0 && !r.1 ==> final(self).obstacles@ == old(self).obstacles@ && final(self).mines@ == old(self).mines@
                && final(self).boss == old(self).boss && final(self).score == old(self).score && final(self).lasers@
                == old(self).lasers@ && final(self).effects@ == old(self).effects@ && final(self).campaign_level
                == old(self).campaign_level,
            effects_extend(old(self).effects@, final(self).effects@),
    {
        let hit1 = !invincible && self.mines.contains(h1);
        let hit2 = match h2 {
            Some(q) => !invincible && self.mines.contains(q),
            None => false,
        };
        if hit1 {
            self.explode_mine(h1);
        }
        if hit2 {
            match h2 {
                Some(q) => {
                    self.explode_mine(q);
                },
                None => {},
            }
        }
        proof {
            assert(self.effects@.subrange(0, old(self).effects@.len() as int) =~= old(self).effects@);
        }
        (hit1, hit2)
    }
}

} // verus!
