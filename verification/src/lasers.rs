use crate::color::Color;
use crate::game::{inside, on_board, Effect, Game};
use crate::kinds::{GameMode, Laser};
use crate::snake::{spec_step, Point};
use crate::tick::effects_extend;
use vstd::prelude::*;

verus! {

/// Whether every laser of `s` lies on a `w` by `h` board.
pub open spec fn lasers_on_board(s: Seq<Laser>, w: u16, h: u16) -> bool {
    forall|i: int| 0 <= i < s.len() ==> on_board(#[trigger] s[i].position, w, h)
}

/// Whether `s` starts with `s0`.
pub open spec fn extends<T>(s0: Seq<T>, s: Seq<T>) -> bool {
    s.len() >= s0.len() && s.subrange(0, s0.len() as int) == s0
}

impl Game {
    /// What a laser may have done from `o` to `self` to the boss and the
    /// score: the boss only loses health; while it lives nothing is
    /// rewarded; killing it is rewarded once (see `reward_boss_kill`).
    pub open spec fn boss_hit_only(&self, o: Game) -> bool {
        &&& self.boss is Some ==> o.boss is Some && self.score == o.score && self.campaign_level == o.campaign_level
        &&& self.boss matches Some(b) ==> o.boss matches Some(ob) && b.position == ob.position && b.move_timer == ob.move_timer
            && b.shoot_timer == ob.shoot_timer && b.health <= ob.health && b.max_health == ob.max_health
        &&& o.boss is None ==> self.score == o.score && self.campaign_level == o.campaign_level
        &&& self.score <= o.score + 0x0400_0000
        &&& self.campaign_level <= o.campaign_level + 1
    }

    /// Everything but the obstacles, the boss, the score, the campaign level,
    /// the lasers and the effects is as in `o`; the obstacles only lose cells.
    pub open spec fn laser_frame(&self, o: Game) -> bool {
        &&& self.snakes_same(o)
        &&& self.width == o.width
        &&& self.height == o.height
        &&& self.wrap_mode == o.wrap_mode
        &&& self.mode == o.mode
        &&& self.food == o.food
        &&& self.bonus_food == o.bonus_food
        &&& self.poison_food == o.poison_food
        &&& self.power_up == o.power_up
        &&& self.portals == o.portals
        &&& self.mines@ == o.mines@
        &&& self.weather == o.weather
        &&& self.lightning_column == o.lightning_column
        &&& self.safe_zone_margin == o.safe_zone_margin
        &&& self.obstacles@.subset_of(o.obstacles@)
        &&& self.lives == o.lives
        &&& self.state == o.state
        &&& self.stats == o.stats
        &&& self.combo == o.combo
        &&& self.food_eaten_session == o.food_eaten_session
        &&& self.start_time == o.start_time
        &&& self.last_shrink_time == o.last_shrink_time
        &&& self.last_obstacle_spawn_time == o.last_obstacle_spawn_time
        &&& self.last_food_time == o.last_food_time
        &&& self.high_score == o.high_score
        &&& self.high_scores@ == o.high_scores@
        &&& self.used_bot_this_session == o.used_bot_this_session
        &&& self.auto_pilot == o.auto_pilot
    }

    /// One laser at `pos` meets what lies there: a wall of the safe zone
    /// ends it; an obstacle is destroyed with it; the boss loses a health
    /// point, and when it dies the kill is rewarded and lasers fly out of its
    /// cell; a snake it was not shot by is hit, which kills it unless
    /// `invincible`. Returns whether the laser is used up and which snakes
    /// die.
    #[verifier::rlimit(40)]
    fn laser_meets(&mut self, laser: Laser, pos: Point, invincible: bool, keep: &mut Vec<Laser>) -> (r: (bool, bool, bool))
        requires
            old(self).wf(),
            old(self).score <= 0xE000_0000,
            old(self).campaign_level <= 0x1_0000,
            lasers_on_board(old(keep)@, old(self).width, old(self).height),
        ensures
            final(self).wf(),
            final(self).laser_frame(*old(self)),
            final(self).boss_hit_only(*old(self)),
            lasers_on_board(final(keep)@, old(self).width, old(self).height),
            extends(old(keep)@, final(keep)@),
            final(self).lasers@ == old(self).lasers@,
            effects_extend(old(self).effects@, final(self).effects@),
            !inside(pos, old(self).width, old(self).height, old(self).margin()) ==> r.0 && !r.1 && !r.2 && final(self).obstacles@
                == old(self).obstacles@ && final(self).boss == old(self).boss,
            inside(pos, old(self).width, old(self).height, old(self).margin()) && old(self).obstacles@.contains(pos) ==> r.0 && !r.1
                && !r.2 && final(self).obstacles@ == old(self).obstacles@.remove(pos) && final(self).boss == old(self).boss,
            r.1 ==> !invincible && laser.player != 1 && old(self).snake.cells().contains(pos),
            r.2 ==> !invincible && laser.player != 2 && (old(self).player2 matches Some(p2) && p2.cells().contains(pos)),
            !r.0 ==> final(self).obstacles@ == old(self).obstacles@ && final(self).boss == old(self).boss && final(keep)@ == old(keep)@
                && final(self).effects@ == old(self).effects@,
    {
        let margin = self.margin_now();
        if !self.is_inside(pos, margin) {
            proof {
                assert(self.effects@.subrange(0, old(self).effects@.len() as int) =~= old(self).effects@);
                assert(keep@.subrange(0, keep@.len() as int) =~= keep@);
            }
            return (true, false, false);
        }
        if self.obstacles.contains(pos) {
            self.obstacles.remove(pos);
            self.effects.push(Effect::Particles { x: pos.x, y: pos.y, count: 10, color: Color::Red, symbol: 'x' });
            proof {
                assert(self.effects@.subrange(0, old(self).effects@.len() as int) =~= old(self).effects@);
                assert(keep@.subrange(0, keep@.len() as int) =~= keep@);
            }
            return (true, false, false);
        }
        match self.boss {
            Some(b0) => {
                if b0.position == pos {
                    let mut boss = b0;
                    boss.health = boss.health.saturating_sub(1);
                    if boss.health == 0 {
                        self.boss = None;
                        let ghost cl = self.campaign_level;
                        assert(1000 * cl <= 0x0400_0000) by (nonlinear_arith)
                            requires
                                cl <= 0x1_0000,
                        ;
                        self.reward_boss_kill();
                        self.effects.push(Effect::Particles { x: pos.x, y: pos.y, count: 30, color: Color::Magenta, symbol: 'B' });
                        self.boss_burst(boss.position, keep);
                    } else {
                        self.boss = Some(boss);
                        self.effects.push(Effect::Particles { x: pos.x, y: pos.y, count: 5, color: Color::Magenta, symbol: '*' });
                        proof {
                            assert(keep@.subrange(0, keep@.len() as int) =~= keep@);
                        }
                    }
                    proof {
                        assert(self.effects@.subrange(0, old(self).effects@.len() as int) =~= old(self).effects@);
                    }
                    return (true, false, false);
                }
            },
            None => {},
        }
        proof {
            assert(keep@.subrange(0, keep@.len() as int) =~= keep@);
        }
        if laser.player != 1 && self.snake.contains(pos) {
            self.effects.push(Effect::Particles { x: pos.x, y: pos.y, count: 10, color: Color::Red, symbol: 'x' });
            proof {
                assert(self.effects@.subrange(0, old(self).effects@.len() as int) =~= old(self).effects@);
            }
            return (true, !invincible, false);
        }
        let p2_hit = match &self.player2 {
            Some(p2) => laser.player != 2 && p2.contains(pos),
            None => false,
        };
        proof {
            assert(self.effects@.subrange(0, old(self).effects@.len() as int) =~= old(self).effects@);
        }
        if p2_hit {
            return (true, false, !invincible);
        }
        (false, false, false)
    }

    /// One laser's flight in a tick: unless time stands still it moves two
    /// cells, meeting what lies on each (see `laser_meets`); while time
    /// stands still it only meets what lies where it is. A laser that is not
    /// used up goes on `keep` where it ended. Returns which snakes die.
    fn fly_laser(&mut self, laser: Laser, frozen: bool, invincible: bool, keep: &mut Vec<Laser>) -> (r: (bool, bool))
        requires
            old(self).wf(),
            old(self).score <= 0xE000_0000,
            old(self).campaign_level <= 0x1_0000,
            on_board(laser.position, old(self).width, old(self).height),
            lasers_on_board(old(keep)@, old(self).width, old(self).height),
        ensures
            final(self).wf(),
            final(self).laser_frame(*old(self)),
            final(self).boss_hit_only(*old(self)),
            lasers_on_board(final(keep)@, old(self).width, old(self).height),
            extends(old(keep)@, final(keep)@),
            final(self).lasers@ == old(self).lasers@,
            effects_extend(old(self).effects@, final(self).effects@),
            r.0 ==> !invincible && laser.player != 1,
            r.1 ==> !invincible && laser.player != 2 && old(self).player2 is Some,
    {
        if frozen {
            let (used, d1, d2) = self.laser_meets(laser, laser.position, invincible, keep);
            if !used {
                let ghost k0 = keep@;
                keep.push(laser);
                proof {
                    assert(keep@.subrange(0, old(keep)@.len() as int) =~= k0.subrange(0, old(keep)@.len() as int));
                }
            }
            return (d1, d2);
        }
        let pos1 = Self::calculate_next_head_dir(laser.position, laser.direction);
        let (used, d1, d2) = self.laser_meets(laser, pos1, invincible, keep);
        if used {
            return (d1, d2);
        }
        let pos2 = Self::calculate_next_head_dir(pos1, laser.direction);
        let (used2, e1, e2) = self.laser_meets(laser, pos2, invincible, keep);
        if !used2 {
            let ghost k1 = keep@;
            keep.push(Laser { position: pos2, ..laser });
            proof {
                assert(keep@.subrange(0, old(keep)@.len() as int) =~= k1.subrange(0, old(keep)@.len() as int));
            }
        }
        proof {
            assert(self.effects@.subrange(0, old(self).effects@.len() as int) =~= old(self).effects@);
        }
        (e1, e2)
    }

    /// The lasers' part of a tick: every laser flies (see `fly_laser`), in
    /// order, and those not used up stay, followed by those a dying boss sent
    /// out. Returns which snakes die.
    pub(crate) fn laser_phase(&mut self, frozen: bool, invincible: bool) -> (r: (bool, bool))
        requires
            old(self).wf(),
            old(self).score <= 0xD000_0000,
            old(self).campaign_level <= 0xFFFF,
        ensures
            final(self).wf(),
            final(self).laser_frame(*old(self)),
            final(self).boss_hit_only(*old(self)),
            effects_extend(old(self).effects@, final(self).effects@),
            r.0 ==> !invincible,
            r.1 ==> !invincible && old(self).player2 is Some,
            old(self).lasers@.len() == 0 ==> final(self).lasers@.len() == 0 && !r.0 && !r.1 && final(self).obstacles@
                == old(self).obstacles@ && final(self).boss == old(self).boss && final(self).score == old(self).score
                && final(self).effects@ == old(self).effects@,
    {
        let mut incoming: Vec<Laser> = Vec::new();
        std::mem::swap(&mut incoming, &mut self.lasers);
        let mut keep: Vec<Laser> = Vec::new();
        let mut p1 = false;
        let mut p2 = false;
        let mut i: usize = 0;
        proof {
            assert(self.effects@.subrange(0, old(self).effects@.len() as int) =~= old(self).effects@);
        }
        while i < incoming.len()
            invariant
                self.wf(),
                self.lasers@.len() == 0,
                self.laser_frame(*old(self)),
                self.boss_hit_only(*old(self)),
                old(self).score <= 0xD000_0000,
                old(self).campaign_level <= 0xFFFF,
                incoming@ == old(self).lasers@,
                i <= incoming@.len(),
                lasers_on_board(incoming@, self.width, self.height),
                lasers_on_board(keep@, self.width, self.height),
                effects_extend(old(self).effects@, self.effects@),
                p1 ==> !invincible,
                p2 ==> !invincible && old(self).player2 is Some,
                i == 0 ==> !p1 && !p2 && keep@.len() == 0 && self.obstacles@ == old(self).obstacles@ && self.boss == old(self).boss
                    && self.score == old(self).score && self.effects@ == old(self).effects@,
            decreases incoming@.len() - i,
        {
            let ghost e_before = self.effects@;
            let (a, b) = self.fly_laser(incoming[i], frozen, invincible, &mut keep);
            proof {
                assert(self.effects@.subrange(0, old(self).effects@.len() as int) =~= e_before.subrange(
                    0,
                    old(self).effects@.len() as int,
                ));
            }
            p1 = p1 || a;
            p2 = p2 || b;
            i = i + 1;
        }
        self.lasers = keep;
        (p1, p2)
    }
}

} // verus!
