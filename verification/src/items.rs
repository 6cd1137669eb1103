use crate::game::{free_cell, get_random_empty_point, inside, sat_sub, Game};
use crate::kinds::{PowerUp, PowerUpType, Weather};
use crate::pointset::PointSet;
use crate::rng::{gen_range_u32, gen_ratio};
use crate::snake::Point;
use vstd::prelude::*;

verus! {

broadcast use vstd::std_specs::vecdeque::group_vec_dequeue_axioms;

/// The kind of power-up drawn as `k` (0 to 10).
pub open spec fn power_up_kind(k: int) -> PowerUpType {
    if k == 0 {
        PowerUpType::SlowDown
    } else if k == 1 {
        PowerUpType::SpeedBoost
    } else if k == 2 {
        PowerUpType::Invincibility
    } else if k == 3 {
        PowerUpType::PassThroughWalls
    } else if k == 4 {
        PowerUpType::Shrink
    } else if k == 5 {
        PowerUpType::ClearObstacles
    } else if k == 6 {
        PowerUpType::ScoreMultiplier
    } else if k == 7 {
        PowerUpType::Teleport
    } else if k == 8 {
        PowerUpType::Magnet
    } else if k == 9 {
        PowerUpType::TimeFreeze
    } else {
        PowerUpType::ExtraLife
    }
}

fn power_up_kind_exec(k: u32) -> (r: PowerUpType)
    ensures
        r == power_up_kind(k as int),
{
    if k == 0 {
        PowerUpType::SlowDown
    } else if k == 1 {
        PowerUpType::SpeedBoost
    } else if k == 2 {
        PowerUpType::Invincibility
    } else if k == 3 {
        PowerUpType::PassThroughWalls
    } else if k == 4 {
        PowerUpType::Shrink
    } else if k == 5 {
        PowerUpType::ClearObstacles
    } else if k == 6 {
        PowerUpType::ScoreMultiplier
    } else if k == 7 {
        PowerUpType::Teleport
    } else if k == 8 {
        PowerUpType::Magnet
    } else if k == 9 {
        PowerUpType::TimeFreeze
    } else {
        PowerUpType::ExtraLife
    }
}

/// `s` with `p` added when it is `Some`.
pub open spec fn with_opt(s: Seq<Point>, p: Option<Point>) -> Seq<Point> {
    match p {
        Some(q) => s.push(q),
        None => s,
    }
}

/// Whether `p` is a free cell inside the safe zone of `g`, off its snake,
/// its obstacles, the set `b` and the cells of `extra`.
pub open spec fn spot(g: Game, p: Point, b: Set<Point>, extra: Seq<Point>) -> bool {
    inside(p, g.width, g.height, g.safe_zone_margin) && free_cell(p, g.snake.cells(), g.obstacles@, b, extra)
}

fn push_opt(v: &mut Vec<Point>, p: Option<Point>)
    ensures
        final(v)@ == with_opt(old(v)@, p),
{
    match p {
        Some(q) => v.push(q),
        None => {},
    }
}

impl Game {
    /// Where the bonus food lies, if there is any.
    pub open spec fn bonus_cell(&self) -> Option<Point> {
        match self.bonus_food {
            Some((b, _)) => Some(b),
            None => None,
        }
    }

    /// Where the poison food lies, if there is any.
    pub open spec fn poison_cell(&self) -> Option<Point> {
        match self.poison_food {
            Some((b, _)) => Some(b),
            None => None,
        }
    }

    /// Where the power-up lies, if there is one.
    pub open spec fn power_up_cell(&self) -> Option<Point> {
        match self.power_up {
            Some(pu) => Some(pu.location),
            None => None,
        }
    }

    fn bonus_cell_exec(&self) -> (r: Option<Point>)
        ensures
            r == self.bonus_cell(),
    {
        match self.bonus_food {
            Some((b, _)) => Some(b),
            None => None,
        }
    }

    fn poison_cell_exec(&self) -> (r: Option<Point>)
        ensures
            r == self.poison_cell(),
    {
        match self.poison_food {
            Some((b, _)) => Some(b),
            None => None,
        }
    }

    fn power_up_cell_exec(&self) -> (r: Option<Point>)
        ensures
            r == self.power_up_cell(),
    {
        match &self.power_up {
            Some(pu) => Some(pu.location),
            None => None,
        }
    }

    /// Everything but the items on the board and the effects is as in `o`.
    pub open spec fn items_frame(&self, o: Game) -> bool {
        &&& self.snakes_same(o)
        &&& self.progress_same(o)
        &&& self.width == o.width
        &&& self.height == o.height
        &&& self.wrap_mode == o.wrap_mode
        &&& self.mode == o.mode
        &&& self.food == o.food
        &&& self.obstacles_same(o)
        &&& self.mines.wf() == o.mines.wf() && self.mines.w() == o.mines.w() && self.mines.h() == o.mines.h()
        &&& self.boss == o.boss
        &&& self.lasers@ == o.lasers@
        &&& self.weather == o.weather
        &&& self.lightning_column == o.lightning_column
        &&& self.safe_zone_margin == o.safe_zone_margin
        &&& self.effects@ == o.effects@
    }

    /// The bonus food at `now` (milliseconds): it is gone five seconds after
    /// it appeared; when there is none, with chance 3 in 100 in rain and 1 in
    /// 100 otherwise, one appears on a free cell inside the safe zone, off the
    /// food and the power-up.
    fn manage_bonus_food(&mut self, now: u64)
        requires
            old(self).wf(),
        ensures
            final(self).wf(),
            final(self).items_frame(*old(self)),
            final(self).mines@ == old(self).mines@,
            final(self).poison_food == old(self).poison_food,
            final(self).power_up == old(self).power_up,
            final(self).portals == old(self).portals,
            old(self).bonus_food matches Some((_, t)) ==> final(self).bonus_food == (if sat_sub(now as int, t as int) > 5000 {
                None
            } else {
                old(self).bonus_food
            }),
            old(self).bonus_food is None ==> final(self).bonus_food is None || (final(self).bonus_food matches Some((b, t)) && t
                == now && spot(*old(self), b, Set::empty(), with_opt(seq![old(self).food], old(self).power_up_cell()))),
    {
        match self.bonus_food {
            Some((_, t)) => {
                let elapsed = if now >= t { now - t } else { 0 };
                if elapsed > 5000 {
                    self.bonus_food = None;
                }
            },
            None => {
                let chance: u32 = if self.weather == Weather::Rain { 3 } else { 1 };
                if gen_ratio(&mut self.rng, chance, 100) {
                    let nothing = PointSet::new(self.width, self.height);
                    let mut extra: Vec<Point> = Vec::new();
                    extra.push(self.food);
                    push_opt(&mut extra, self.power_up_cell_exec());
                    let m = self.safe_zone_margin;
                    match get_random_empty_point(self.width, self.height, &self.snake, &self.obstacles, &nothing, &extra, &mut self.rng, m) {
                        Some(p) => {
                            self.bonus_food = Some((p, now));
                        },
                        None => {},
                    }
                }
            },
        }
    }

    /// The poison food at `now` (milliseconds): it is gone eight seconds
    /// after it appeared; when there is none, with chance 15 in 1000 one
    /// appears on a free cell inside the safe zone, off the food, the bonus
    /// food and the power-up.
    fn manage_poison_food(&mut self, now: u64)
        requires
            old(self).wf(),
        ensures
            final(self).wf(),
            final(self).items_frame(*old(self)),
            final(self).mines@ == old(self).mines@,
            final(self).bonus_food == old(self).bonus_food,
            final(self).power_up == old(self).power_up,
            final(self).portals == old(self).portals,
            old(self).poison_food matches Some((_, t)) ==> final(self).poison_food == (if sat_sub(now as int, t as int) > 8000 {
                None
            } else {
                old(self).poison_food
            }),
            old(self).poison_food is None ==> final(self).poison_food is None || (final(self).poison_food matches Some((b, t)) && t
                == now && spot(
                *old(self),
                b,
                Set::empty(),
                with_opt(with_opt(seq![old(self).food], old(self).bonus_cell()), old(self).power_up_cell()),
            )),
    {
        match self.poison_food {
            Some((_, t)) => {
                let elapsed = if now >= t { now - t } else { 0 };
                if elapsed > 8000 {
                    self.poison_food = None;
                }
            },
            None => {
                if gen_ratio(&mut self.rng, 15, 1000) {
                    let nothing = PointSet::new(self.width, self.height);
                    let mut extra: Vec<Point> = Vec::new();
                    extra.push(self.food);
                    push_opt(&mut extra, self.bonus_cell_exec());
                    push_opt(&mut extra, self.power_up_cell_exec());
                    let m = self.safe_zone_margin;
                    match get_random_empty_point(self.width, self.height, &self.snake, &self.obstacles, &nothing, &extra, &mut self.rng, m) {
                        Some(p) => {
                            self.poison_food = Some((p, now));
                        },
                        None => {},
                    }
                }
            },
        }
    }

    /// When there is no power-up, with chance 2 in 100 one of a random kind
    /// (see `power_up_kind`) appears, not yet running, on a free cell inside
    /// the safe zone, off the food and the bonus food.
    fn manage_power_ups(&mut self)
        requires
            old(self).wf(),
        ensures
            final(self).wf(),
            final(self).items_frame(*old(self)),
            final(self).mines@ == old(self).mines@,
            final(self).bonus_food == old(self).bonus_food,
            final(self).poison_food == old(self).poison_food,
            final(self).portals == old(self).portals,
            old(self).power_up is Some ==> final(self).power_up == old(self).power_up,
            old(self).power_up is None ==> final(self).power_up is None || (final(self).power_up matches Some(pu)
                && pu.activation_time is None && (exists|k: int| 0 <= k < 11 && pu.p_type == power_up_kind(k)) && spot(
                *old(self),
                pu.location,
                Set::empty(),
                with_opt(seq![old(self).food], old(self).bonus_cell()),
            )),
    {
        if self.power_up.is_none() && gen_ratio(&mut self.rng, 2, 100) {
            let nothing = PointSet::new(self.width, self.height);
            let mut extra: Vec<Point> = Vec::new();
            extra.push(self.food);
            push_opt(&mut extra, self.bonus_cell_exec());
            let m = self.safe_zone_margin;
            match get_random_empty_point(self.width, self.height, &self.snake, &self.obstacles, &nothing, &extra, &mut self.rng, m) {
                Some(location) => {
                    let k = gen_range_u32(&mut self.rng, 0, 11);
                    let p_type = power_up_kind_exec(k);
                    self.power_up = Some(PowerUp { p_type, location, activation_time: None });
                    assert(0 <= k < 11 && p_type == power_up_kind(k as int));
                },
                None => {},
            }
        }
    }

    /// When there are no portals, with chance 5 in 1000 a pair appears on
    /// two distinct free cells inside the safe zone, off the food, the bonus
    /// food and the power-up, when two are left.
    fn manage_portals(&mut self)
        requires
            old(self).wf(),
        ensures
            final(self).wf(),
            final(self).items_frame(*old(self)),
            final(self).mines@ == old(self).mines@,
            final(self).bonus_food == old(self).bonus_food,
            final(self).poison_food == old(self).poison_food,
            final(self).power_up == old(self).power_up,
            old(self).portals is Some ==> final(self).portals == old(self).portals,
            old(self).portals is None ==> final(self).portals is None || (final(self).portals matches Some((a, b)) && a != b && spot(
                *old(self),
                a,
                Set::empty(),
                with_opt(with_opt(seq![old(self).food], old(self).bonus_cell()), old(self).power_up_cell()),
            ) && spot(
                *old(self),
                b,
                Set::empty(),
                with_opt(with_opt(seq![old(self).food], old(self).bonus_cell()), old(self).power_up_cell()),
            )),
    {
        if self.portals.is_none() && gen_ratio(&mut self.rng, 5, 1000) {
            let nothing = PointSet::new(self.width, self.height);
            let mut extra: Vec<Point> = Vec::new();
            extra.push(self.food);
            push_opt(&mut extra, self.bonus_cell_exec());
            push_opt(&mut extra, self.power_up_cell_exec());
            let ghost e1 = extra@;
            let m = self.safe_zone_margin;
            match get_random_empty_point(self.width, self.height, &self.snake, &self.obstacles, &nothing, &extra, &mut self.rng, m) {
                Some(a) => {
                    extra.push(a);
                    match get_random_empty_point(
                        self.width,
                        self.height,
                        &self.snake,
                        &self.obstacles,
                        &nothing,
                        &extra,
                        &mut self.rng,
                        m,
                    ) {
                        Some(b) => {
                            assert(extra@.last() == a);
                            assert(extra@ == e1.push(a));
                            assert forall|p: Point| e1.contains(p) implies extra@.contains(p) by {
                                let i = choose|i: int| 0 <= i < e1.len() && e1[i] == p;
                                assert(extra@[i] == p);
                            }
                            self.portals = Some((a, b));
                        },
                        None => {},
                    }
                },
                None => {},
            }
        }
    }

    /// With chance 5 in 1000, while there are fewer than five mines, a mine
    /// appears on a free cell inside the safe zone, off the food, the bonus
    /// food, the poison, the power-up, the other mines and the portals.
    fn manage_mines(&mut self)
        requires
            old(self).wf(),
            (old(self).width as int) * (old(self).height as int) < 65535,
        ensures
            final(self).wf(),
            final(self).items_frame(*old(self)),
            final(self).bonus_food == old(self).bonus_food,
            final(self).poison_food == old(self).poison_food,
            final(self).power_up == old(self).power_up,
            final(self).portals == old(self).portals,
            final(self).mines@ == old(self).mines@ || (old(self).mines@.len() < 5 && exists|p: Point| spot(
                *old(self),
                p,
                old(self).mines@,
                old(self).mine_extra(),
            ) && final(self).mines@ == old(self).mines@.insert(p)),
    {
        if gen_ratio(&mut self.rng, 5, 1000) && self.mines.count() < 5 {
            let mut extra: Vec<Point> = Vec::new();
            extra.push(self.food);
            push_opt(&mut extra, self.bonus_cell_exec());
            push_opt(&mut extra, self.poison_cell_exec());
            push_opt(&mut extra, self.power_up_cell_exec());
            match self.portals {
                Some((a, b)) => {
                    extra.push(a);
                    extra.push(b);
                },
                None => {},
            }
            let m = self.safe_zone_margin;
            match get_random_empty_point(self.width, self.height, &self.snake, &self.obstacles, &self.mines, &extra, &mut self.rng, m) {
                Some(p) => {
                    self.mines.insert(p);
                },
                None => {},
            }
        }
    }

    /// The cells a new mine may not take besides the obstacles, the snake and
    /// the other mines: the food, the bonus food, the poison, the power-up
    /// and the portals.
    pub open spec fn mine_extra(&self) -> Seq<Point> {
        let s = with_opt(with_opt(with_opt(seq![self.food], self.bonus_cell()), self.poison_cell()), self.power_up_cell());
        match self.portals {
            Some((a, b)) => s.push(a).push(b),
            None => s,
        }
    }

    /// The items' part of a tick at `now` (milliseconds): bonus food, poison
    /// food, power-ups, portals and mines in turn (see `manage_bonus_food`
    /// and the functions after it). Bonus food is gone five seconds and
    /// poison eight seconds after it appeared; new ones appear at `now`.
    pub(crate) fn manage_items(&mut self, now: u64)
        requires
            old(self).wf(),
            (old(self).width as int) * (old(self).height as int) < 65535,
        ensures
            final(self).wf(),
            final(self).items_frame(*old(self)),
            old(self).bonus_food matches Some((_, t)) ==> final(self).bonus_food == (if sat_sub(now as int, t as int) > 5000 {
                None
            } else {
                old(self).bonus_food
            }),
            old(self).bonus_food is None ==> final(self).bonus_food is None || (final(self).bonus_food matches Some((_, t)) && t
                == now),
            old(self).poison_food matches Some((_, t)) ==> final(self).poison_food == (if sat_sub(now as int, t as int) > 8000 {
                None
            } else {
                old(self).poison_food
            }),
            old(self).poison_food is None ==> final(self).poison_food is None || (final(self).poison_food matches Some((q, t))
                && t == now && q != old(self).food),
            final(self).mines@ == old(self).mines@ || (old(self).mines@.len() < 5 && exists|p: Point|
                final(self).mines@ == old(self).mines@.insert(p)),
            old(self).power_up is Some ==> final(self).power_up == old(self).power_up,
            final(self).power_up != old(self).power_up ==> (final(self).power_up matches Some(pu) && pu.activation_time is None),
            final(self).portals == old(self).portals || (old(self).portals is None && (final(self).portals matches Some((a, b))
                && inside(a, old(self).width, old(self).height, old(self).safe_zone_margin) && inside(
                b,
                old(self).width,
                old(self).height,
                old(self).safe_zone_margin,
            ))),
    {
        self.manage_bonus_food(now);
        let ghost g1 = *self;
        self.manage_poison_food(now);
        proof {
            if g1.poison_food is None && self.poison_food is Some {
                let ex = with_opt(with_opt(seq![g1.food], g1.bonus_cell()), g1.power_up_cell());
                assert(ex.contains(g1.food)) by {
                    assert(seq![g1.food][0] == g1.food);
                    if g1.bonus_cell() is Some {
                        assert(with_opt(seq![g1.food], g1.bonus_cell())[0] == g1.food);
                    }
                    assert(with_opt(seq![g1.food], g1.bonus_cell())[0] == g1.food);
                    assert(ex[0] == g1.food);
                }
            }
        }
        self.manage_power_ups();
        self.manage_portals();
        self.manage_mines();
    }

    /// Turns queued by the players take effect: each snake takes the first
    /// of its queued headings, if any.
    pub(crate) fn apply_input(&mut self)
        requires
            old(self).wf(),
        ensures
            final(self).wf(),
            final(self).snake.cells() == old(self).snake.cells(),
            old(self).snake.direction_queue@.len() == 0 ==> final(self).snake.direction == old(self).snake.direction
                && final(self).snake.direction_queue@.len() == 0,
            old(self).snake.direction_queue@.len() > 0 ==> final(self).snake.direction == old(self).snake.direction_queue@[0]
                && final(self).snake.direction_queue@ == old(self).snake.direction_queue@.drop_first(),
            final(self).player2 is Some == old(self).player2 is Some,
            old(self).player2 matches Some(a) ==> (final(self).player2 matches Some(b) && b.cells() == a.cells() && (
            a.direction_queue@.len() == 0 ==> b.direction == a.direction && b.direction_queue@.len() == 0) && (
            a.direction_queue@.len() > 0 ==> b.direction == a.direction_queue@[0] && b.direction_queue@
                == a.direction_queue@.drop_first())),
            final(self).board_same(*old(self)),
            final(self).progress_same(*old(self)),
            final(self).effects@ == old(self).effects@,
    {
        match self.snake.direction_queue.pop_front() {
            Some(d) => {
                self.snake.direction = d;
            },
            None => {},
        }
        match &mut self.player2 {
            Some(p2) => {
                match p2.direction_queue.pop_front() {
                    Some(d) => {
                        p2.direction = d;
                    },
                    None => {},
                }
            },
            None => {},
        }
    }
}

} // verus!
