//! The plain terminal game: one snake on a walled 40 by 20 board, food to eat
//! and nothing else. The board, the snake's moves and the food are decided
//! here; drawing and the keyboard belong to the program around it.
use crate::rng::gen_range_usize;
use crate::snake::{Direction, Point};
use rand::rngs::StdRng;
use vstd::prelude::*;

verus! {

/// The board's width, walls included.
pub const CLASSIC_WIDTH: u16 = 40;

/// The board's height, walls included.
pub const CLASSIC_HEIGHT: u16 = 20;

/// The number of cells inside the walls.
pub const CLASSIC_INSIDE: usize = 684;

/// `p` lies inside the walls of the plain board.
pub open spec fn inside(p: Point) -> bool {
    1 <= p.x < CLASSIC_WIDTH - 1 && 1 <= p.y < CLASSIC_HEIGHT - 1
}

/// The cell one step from `p` heading `d`; a step off the top or left edge
/// wraps to the far end of the `u16` range, as `wrapping_sub` does.
pub open spec fn classic_step(p: Point, d: Direction) -> Point {
    match d {
        Direction::Up => Point { x: p.x, y: if p.y == 0 { u16::MAX } else { (p.y - 1) as u16 } },
        Direction::Down => Point { x: p.x, y: (p.y + 1) as u16 },
        Direction::Left => Point { x: if p.x == 0 { u16::MAX } else { (p.x - 1) as u16 }, y: p.y },
        Direction::Right => Point { x: (p.x + 1) as u16, y: p.y },
    }
}

/// The snake of the plain game: its cells from the head, and its heading.
#[derive(Clone, Debug)]
pub struct ClassicSnake {
    pub body: Vec<Point>,
    pub direction: Direction,
}

impl ClassicSnake {
    /// A snake of three cells with its head at `start`, facing up, its body
    /// in the two cells below the head.
    pub fn new(start: Point) -> (s: ClassicSnake)
        requires
            start.y + 2 <= u16::MAX,
        ensures
            s.body@ == seq![start, Point { x: start.x, y: (start.y + 1) as u16 }, Point { x: start.x, y: (start.y + 2) as u16 }],
            s.direction == Direction::Up,
    {
        let mut body: Vec<Point> = Vec::new();
        body.push(start);
        body.push(Point { x: start.x, y: start.y + 1 });
        body.push(Point { x: start.x, y: start.y + 2 });
        ClassicSnake { body, direction: Direction::Up }
    }

    /// The head, the first cell of the body.
    pub fn head(&self) -> (r: Point)
        requires
            self.body@.len() > 0,
        ensures
            r == self.body@[0],
    {
        self.body[0]
    }

    /// Moves one step along the heading: the new head goes in front and, unless
    /// the snake grows, the last cell leaves.
    pub fn move_forward(&mut self, grow: bool)
        requires
            old(self).body@.len() > 0,
            inside(old(self).body@[0]),
        ensures
            final(self).direction == old(self).direction,
            grow ==> final(self).body@ == seq![classic_step(old(self).body@[0], old(self).direction)] + old(self).body@,
            !grow ==> final(self).body@ == seq![classic_step(old(self).body@[0], old(self).direction)] + old(self).body@.drop_last(),
    {
        let new_head = next_cell(self.head(), self.direction);
        self.body.insert(0, new_head);
        if !grow {
            let _ = self.body.pop();
        }
        proof {
            assert(grow ==> self.body@ =~= seq![classic_step(old(self).body@[0], old(self).direction)] + old(self).body@);
            assert(!grow ==> self.body@ =~= seq![classic_step(old(self).body@[0], old(self).direction)] + old(self).body@.drop_last());
        }
    }
}

/// The cell one step from `p`, which lies inside the walls, heading `d`.
pub fn next_cell(p: Point, d: Direction) -> (r: Point)
    requires
        inside(p),
    ensures
        r == classic_step(p, d),
{
    match d {
        Direction::Up => Point { x: p.x, y: p.y.wrapping_sub(1) },
        Direction::Down => Point { x: p.x, y: p.y + 1 },
        Direction::Left => Point { x: p.x.wrapping_sub(1), y: p.y },
        Direction::Right => Point { x: p.x + 1, y: p.y },
    }
}

/// The cells inside the walls that `body` does not cover, row by row.
pub open spec fn free_cells(body: Seq<Point>) -> Set<Point> {
    Set::new(|p: Point| inside(p) && !body.contains(p))
}

/// The cells inside the walls that `body` leaves free, row by row.
fn free_list(body: &Vec<Point>) -> (r: Vec<Point>)
    ensures
        forall|i: int| 0 <= i < r@.len() ==> free_cells(body@).contains(#[trigger] r@[i]),
        forall|p: Point| #[trigger] free_cells(body@).contains(p) ==> r@.contains(p),
        r@.len() <= CLASSIC_INSIDE,
{
    let mut out: Vec<Point> = Vec::new();
    let mut y: u16 = 1;
    while y < CLASSIC_HEIGHT - 1
        invariant
            1 <= y <= CLASSIC_HEIGHT - 1,
            out@.len() <= (y - 1) * 38,
            forall|i: int| 0 <= i < out@.len() ==> free_cells(body@).contains(#[trigger] out@[i]),
            forall|p: Point| #[trigger] free_cells(body@).contains(p) && p.y < y ==> out@.contains(p),
        decreases CLASSIC_HEIGHT - y,
    {
        let mut x: u16 = 1;
        while x < CLASSIC_WIDTH - 1
            invariant
                1 <= y < CLASSIC_HEIGHT - 1,
                1 <= x <= CLASSIC_WIDTH - 1,
                out@.len() <= (y - 1) * 38 + (x - 1),
                forall|i: int| 0 <= i < out@.len() ==> free_cells(body@).contains(#[trigger] out@[i]),
                forall|p: Point| #[trigger] free_cells(body@).contains(p) && (p.y < y || (p.y == y && p.x < x)) ==> out@.contains(p),
            decreases CLASSIC_WIDTH - x,
        {
            let p = Point { x, y };
            if !contains_point(body, p) {
                let ghost o0 = out@;
                out.push(p);
                proof {
                    assert forall|q: Point| #[trigger] free_cells(body@).contains(q) && (q.y < y || (q.y == y && q.x < x + 1)) implies out@.contains(q) by {
                        if q == p {
                            assert(out@[o0.len() as int] == p);
                        } else {
                            assert(o0.contains(q));
                            let k = choose|k: int| 0 <= k < o0.len() && o0[k] == q;
                            assert(out@[k] == q);
                        }
                    }
                }
            }
            x = x + 1;
        }
        y = y + 1;
    }
    out
}

/// Whether `body` covers `p`.
pub fn contains_point(body: &Vec<Point>, p: Point) -> (r: bool)
    ensures
        r == body@.contains(p),
{
    let mut i: usize = 0;
    while i < body.len()
        invariant
            i <= body@.len(),
            forall|j: int| 0 <= j < i ==> body@[j] != p,
        decreases body@.len() - i,
    {
        if body[i] == p {
            return true;
        }
        i = i + 1;
    }
    false
}

/// A cell for the food: a free cell inside the walls, each free cell as
/// likely as any other, as drawing cells until one is free gives. Which one
/// comes out rests on `rng`.
pub fn classic_food(body: &Vec<Point>, rng: &mut StdRng) -> (r: Point)
    requires
        body@.len() < CLASSIC_INSIDE,
    ensures
        free_cells(body@).contains(r),
{
    let free = free_list(body);
    proof {
        lemma_some_free(body@);
    }
    let k = gen_range_usize(rng, 0, free.len());
    free[k]
}

/// A body of fewer cells than the inside of the board leaves a cell free.
proof fn lemma_some_free(body: Seq<Point>)
    requires
        body.len() < CLASSIC_INSIDE,
    ensures
        exists|p: Point| #[trigger] free_cells(body).contains(p),
{
    let inside_set = Set::new(|p: Point| inside(p));
    let taken = body.to_set();
    assert(inside_set =~= Set::new(|p: Point| 1 <= p.x < 39 && 1 <= p.y < 19));
    lemma_inside_len();
    body.lemma_cardinality_of_set();
    vstd::seq_lib::seq_to_set_is_finite(body);
    if !(exists|p: Point| #[trigger] free_cells(body).contains(p)) {
        assert(inside_set.subset_of(taken)) by {
            assert forall|p: Point| inside_set.contains(p) implies taken.contains(p) by {
                assert(!free_cells(body).contains(p));
            }
        }
        vstd::set_lib::lemma_len_subset(inside_set, taken);
    }
}

/// The inside of the board holds 684 cells.
proof fn lemma_inside_len()
    ensures
        Set::new(|p: Point| inside(p)).finite(),
        Set::new(|p: Point| inside(p)).len() == CLASSIC_INSIDE,
{
    let f = |i: int| Point { x: (1 + i % 38) as u16, y: (1 + i / 38) as u16 };
    let s = Set::new(|i: int| 0 <= i < 684);
    assert(s =~= vstd::set_lib::set_int_range(0, 684));
    vstd::set_lib::lemma_int_range(0, 684);
    assert(Set::new(|p: Point| inside(p)) =~= s.map(f)) by {
        assert forall|p: Point| inside(p) implies s.map(f).contains(p) by {
            let i = (p.y - 1) * 38 + (p.x - 1);
            assert(0 <= i < 684) by (nonlinear_arith)
                requires
                    1 <= p.x < 39,
                    1 <= p.y < 19,
                    i == (p.y - 1) * 38 + (p.x - 1),
            ;
            assert(i % 38 == p.x - 1 && i / 38 == p.y - 1) by (nonlinear_arith)
                requires
                    1 <= p.x < 39,
                    1 <= p.y < 19,
                    i == (p.y - 1) * 38 + (p.x - 1),
            ;
            assert(s.contains(i) && f(i) == p);
        }
        assert forall|p: Point| s.map(f).contains(p) implies inside(p) by {
            let i = choose|i: int| s.contains(i) && f(i) == p;
            assert(0 <= i % 38 < 38 && 0 <= i / 38 < 18) by (nonlinear_arith)
                requires
                    0 <= i < 684,
            ;
        }
    }
    assert forall|a: int, b: int| s.contains(a) && s.contains(b) && #[trigger] f(a) == #[trigger] f(b) implies a == b by {
        assert(a == 38 * (a / 38) + a % 38 && b == 38 * (b / 38) + b % 38) by (nonlinear_arith);
        assert(0 <= a % 38 < 38 && 0 <= b % 38 < 38 && 0 <= a / 38 < 18 && 0 <= b / 38 < 18) by (nonlinear_arith)
            requires
                0 <= a < 684,
                0 <= b < 684,
        ;
    }
    vstd::set_lib::lemma_map_size(s, s.map(f), f);
}

/// The plain game: the snake, the food, the score, and whether the game is
/// over.
pub struct ClassicGame {
    pub snake: ClassicSnake,
    pub food: Point,
    pub score: u32,
    pub is_over: bool,
    pub rng: StdRng,
}

impl ClassicGame {
    /// Whether the snake lies inside the walls with fewer cells than the inside
    /// holds, and the food lies inside the walls.
    pub open spec fn wf(&self) -> bool {
        &&& self.snake.body@.len() > 0
        &&& self.snake.body@.len() < CLASSIC_INSIDE
        &&& forall|i: int| 0 <= i < self.snake.body@.len() ==> inside(#[trigger] self.snake.body@[i])
        &&& inside(self.food)
    }

    /// A new game: the snake in the middle of the board facing up, the food on
    /// a free cell, no score.
    pub fn new(rng: StdRng) -> (g: ClassicGame)
        ensures
            g.wf(),
            g.snake.body@ == seq![Point { x: 20, y: 10 }, Point { x: 20, y: 11 }, Point { x: 20, y: 12 }],
            g.snake.direction == Direction::Up,
            free_cells(g.snake.body@).contains(g.food),
            g.score == 0,
            !g.is_over,
    {
        let mut rng = rng;
        let snake = ClassicSnake::new(Point { x: CLASSIC_WIDTH / 2, y: CLASSIC_HEIGHT / 2 });
        let food = classic_food(&snake.body, &mut rng);
        ClassicGame { snake, food, score: 0, is_over: false, rng }
    }

    /// One tick. A game that is over stays as it is. Otherwise the next head
    /// ends the game when it hits a wall, or a cell of the body other than the
    /// tail when the snake does not grow (the tail moves away); eating the
    /// food scores a point, puts new food on a cell the body (before the
    /// move) leaves free, and grows the snake; else the snake moves.
    pub fn update(&mut self)
        requires
            old(self).wf(),
            old(self).score < u32::MAX,
            old(self).snake.body@.len() + 1 < CLASSIC_INSIDE,
        ensures
            final(self).wf() || final(self).is_over,
            final(self).snake.direction == old(self).snake.direction,
            ({
                let b = old(self).snake.body@;
                let next = classic_step(b[0], old(self).snake.direction);
                let grow = next == old(self).food;
                let hits = !inside(next) || (b.contains(next) && (grow || next != b.last()));
                if old(self).is_over {
                    final(self).snake.body@ == b && final(self).food == old(self).food && final(self).score == old(self).score
                        && final(self).is_over
                } else if hits {
                    final(self).is_over && final(self).snake.body@ == b && final(self).food == old(self).food
                        && final(self).score == old(self).score
                } else if grow {
                    &&& !final(self).is_over
                    &&& final(self).score == old(self).score + 1
                    &&& free_cells(b).contains(final(self).food)
                    &&& final(self).snake.body@ == seq![next] + b
                } else {
                    &&& !final(self).is_over
                    &&& final(self).score == old(self).score
                    &&& final(self).food == old(self).food
                    &&& final(self).snake.body@ == seq![next] + b.drop_last()
                }
            }),
    {
        if self.is_over {
            return;
        }
        let head = self.snake.head();
        let next_head = next_cell(head, self.snake.direction);
        if next_head.x == 0 || next_head.x >= CLASSIC_WIDTH - 1 || next_head.y == 0 || next_head.y >= CLASSIC_HEIGHT - 1 {
            self.is_over = true;
            return;
        }
        let grow = next_head == self.food;
        if contains_point(&self.snake.body, next_head) {
            let tail = self.snake.body[self.snake.body.len() - 1];
            if !grow && next_head == tail {
            } else {
                self.is_over = true;
                return;
            }
        }
        if grow {
            self.score = self.score + 1;
            self.food = classic_food(&self.snake.body, &mut self.rng);
        }
        self.snake.move_forward(grow);
        proof {
            let b = old(self).snake.body@;
            assert forall|i: int| 0 <= i < self.snake.body@.len() implies inside(#[trigger] self.snake.body@[i]) by {
                if i > 0 {
                    assert(self.snake.body@[i] == b[i - 1]);
                }
            }
        }
    }
}

} // verus!
