use std::collections::VecDeque;
use vstd::prelude::*;

verus! {

broadcast use vstd::std_specs::vecdeque::group_vec_dequeue_axioms;

/// A cell of the board; `x` grows to the right, `y` grows downwards.
#[derive(Clone, Copy, Debug, PartialEq, Eq, Structural, Hash)]
pub struct Point {
    pub x: u16,
    pub y: u16,
}

/// The four headings a snake can take.
#[derive(Clone, Copy, Debug, PartialEq, Eq, Structural, Hash)]
pub enum Direction {
    Up,
    Down,
    Left,
    Right,
}

impl Point {
    /// Builds a point from its coordinates.
    pub fn new(x: u16, y: u16) -> (p: Point)
        ensures
            p.x == x,
            p.y == y,
    {
        Point { x, y }
    }
}

/// The heading that points the other way.
pub open spec fn spec_opposite(d: Direction) -> Direction {
    match d {
        Direction::Up => Direction::Down,
        Direction::Down => Direction::Up,
        Direction::Left => Direction::Right,
        Direction::Right => Direction::Left,
    }
}

impl Direction {
    /// The heading that points the other way.
    pub fn opposite(self) -> (r: Direction)
        ensures
            r == spec_opposite(self),
    {
        match self {
            Direction::Up => Direction::Down,
            Direction::Down => Direction::Up,
            Direction::Left => Direction::Right,
            Direction::Right => Direction::Left,
        }
    }
}

/// Whether one step from `p` in `dir` stays within the `u16` range that the step
/// arithmetic uses (`Up` and `Left` wrap below zero, `Down` and `Right` add one).
pub open spec fn step_fits(p: Point, dir: Direction) -> bool {
    match dir {
        Direction::Down => p.y < u16::MAX,
        Direction::Right => p.x < u16::MAX,
        _ => true,
    }
}

/// The cell one step from `p` in `dir`; a step up from row 0 or left from
/// column 0 wraps around to `u16::MAX`, as `wrapping_sub` does.
pub open spec fn spec_step(p: Point, dir: Direction) -> Point {
    match dir {
        Direction::Up => Point { x: p.x, y: if p.y == 0 { u16::MAX } else { (p.y - 1) as u16 } },
        Direction::Down => Point { x: p.x, y: (p.y + 1) as u16 },
        Direction::Left => Point { x: if p.x == 0 { u16::MAX } else { (p.x - 1) as u16 }, y: p.y },
        Direction::Right => Point { x: (p.x + 1) as u16, y: p.y },
    }
}

/// One step from `head` in `dir`; see `Game::calculate_next_head_dir`.
pub fn step(head: Point, dir: Direction) -> (r: Point)
    requires
        step_fits(head, dir),
    ensures
        r == spec_step(head, dir),
{
    match dir {
        Direction::Up => Point { x: head.x, y: head.y.wrapping_sub(1) },
        Direction::Down => Point { x: head.x, y: head.y + 1 },
        Direction::Left => Point { x: head.x.wrapping_sub(1), y: head.y },
        Direction::Right => Point { x: head.x + 1, y: head.y },
    }
}

/// A snake: its body from head (index 0) to tail, its heading and the turns
/// that the player has queued but that have not been applied yet.
pub struct Snake {
    pub body: VecDeque<Point>,
    pub direction: Direction,
    pub direction_queue: VecDeque<Direction>,
}

impl Snake {
    /// The body as a sequence, head first.
    pub open spec fn cells(&self) -> Seq<Point> {
        self.body@
    }

    /// A new snake of three segments facing up: the head at `start` and the
    /// body on the two cells below it.
    pub fn new(start: Point) -> (s: Snake)
        requires
            start.y + 2 <= u16::MAX,
        ensures
            s.cells() == seq![start, Point { x: start.x, y: (start.y + 1) as u16 }, Point { x: start.x, y: (start.y + 2) as u16 }],
            s.direction == Direction::Up,
            s.direction_queue@.len() == 0,
    {
        let mut body = VecDeque::new();
        body.push_back(start);
        body.push_back(Point { x: start.x, y: start.y + 1 });
        body.push_back(Point { x: start.x, y: start.y + 2 });
        Snake { body, direction: Direction::Up, direction_queue: VecDeque::new() }
    }

    /// The head of the snake.
    pub fn head(&self) -> (h: Point)
        requires
            self.cells().len() > 0,
        ensures
            h == self.cells()[0],
    {
        self.body[0]
    }

    /// The last segment of the snake.
    pub fn tail(&self) -> (t: Point)
        requires
            self.cells().len() > 0,
        ensures
            t == self.cells().last(),
    {
        self.body[self.body.len() - 1]
    }

    /// Whether a segment of the snake lies on `p`.
    pub fn contains(&self, p: Point) -> (r: bool)
        ensures
            r == self.cells().contains(p),
    {
        let n = self.body.len();
        let mut i: usize = 0;
        while i < n
            invariant
                n == self.cells().len(),
                0 <= i <= n,
                forall|j: int| 0 <= j < i ==> self.cells()[j] != p,
            decreases n - i,
        {
            if self.body[i] == p {
                return true;
            }
            i = i + 1;
        }
        false
    }

    /// The index of the first segment on `p`, counted from the head.
    pub fn position(&self, p: Point) -> (r: Option<usize>)
        ensures
            match r {
                Some(i) => i < self.cells().len() && self.cells()[i as int] == p && forall|j: int|
                    0 <= j < i ==> self.cells()[j] != p,
                None => !self.cells().contains(p),
            },
    {
        let n = self.body.len();
        let mut i: usize = 0;
        while i < n
            invariant
                n == self.cells().len(),
                0 <= i <= n,
                forall|j: int| 0 <= j < i ==> self.cells()[j] != p,
            decreases n - i,
        {
            if self.body[i] == p {
                return Some(i);
            }
            i = i + 1;
        }
        None
    }

    /// Moves the head to `p`; the tail follows unless the snake grows.
    pub fn move_to(&mut self, p: Point, grow: bool)
        ensures
            grow ==> final(self).cells() == seq![p] + old(self).cells(),
            !grow ==> final(self).cells() == (seq![p] + old(self).cells()).drop_last(),
            final(self).direction == old(self).direction,
            final(self).direction_queue == old(self).direction_queue,
    {
        self.body.push_front(p);
        if !grow {
            let _ = self.body.pop_back();
        }
    }

    /// Moves one step along the current heading, growing when `grow` is set.
    pub fn move_forward(&mut self, grow: bool)
        requires
            old(self).cells().len() > 0,
            step_fits(old(self).cells()[0], old(self).direction),
        ensures
            final(self).direction == old(self).direction,
            grow ==> final(self).cells() == seq![spec_step(old(self).cells()[0], old(self).direction)]
                + old(self).cells(),
            !grow ==> final(self).cells() == (seq![spec_step(old(self).cells()[0], old(self).direction)]
                + old(self).cells()).drop_last(),
            final(self).direction_queue == old(self).direction_queue,
    {
        let head = self.head();
        let new_head = step(head, self.direction);
        self.move_to(new_head, grow);
    }

    /// A copy of the snake.
    pub fn duplicate(&self) -> (r: Snake)
        ensures
            r.cells() == self.cells(),
            r.direction == self.direction,
            r.direction_queue@ == self.direction_queue@,
    {
        let mut body: VecDeque<Point> = VecDeque::new();
        let mut i: usize = 0;
        while i < self.body.len()
            invariant
                i <= self.body@.len(),
                body@ == self.body@.take(i as int),
            decreases self.body@.len() - i,
        {
            body.push_back(self.body[i]);
            i = i + 1;
            assert(body@ =~= self.body@.take(i as int));
        }
        assert(self.body@.take(i as int) =~= self.body@);
        let mut queue: VecDeque<Direction> = VecDeque::new();
        let mut j: usize = 0;
        while j < self.direction_queue.len()
            invariant
                j <= self.direction_queue@.len(),
                queue@ == self.direction_queue@.take(j as int),
            decreases self.direction_queue@.len() - j,
        {
            queue.push_back(self.direction_queue[j]);
            j = j + 1;
            assert(queue@ =~= self.direction_queue@.take(j as int));
        }
        assert(self.direction_queue@.take(j as int) =~= self.direction_queue@);
        Snake { body, direction: self.direction, direction_queue: queue }
    }

    /// Drops the tail segment, keeping at least the head.
    pub fn shrink_tail(&mut self)
        ensures
            old(self).cells().len() > 1 ==> final(self).cells() == old(self).cells().drop_last(),
            old(self).cells().len() <= 1 ==> final(self).cells() == old(self).cells(),
            final(self).direction == old(self).direction,
            final(self).direction_queue == old(self).direction_queue,
    {
        if self.body.len() > 1 {
            let _ = self.body.pop_back();
        }
    }
}

/// Moving onto a cell without growing keeps the length of the snake, and
/// moving while growing adds exactly one segment; either way the new head is
/// the cell moved to.
pub proof fn lemma_move_keeps_length(old_cells: Seq<Point>, p: Point, grow: bool)
    requires
        old_cells.len() > 0,
    ensures
        grow ==> (seq![p] + old_cells).len() == old_cells.len() + 1,
        !grow ==> (seq![p] + old_cells).drop_last().len() == old_cells.len(),
        (seq![p] + old_cells)[0] == p,
        !grow ==> (seq![p] + old_cells).drop_last()[0] == p,
{
}

} // verus!
