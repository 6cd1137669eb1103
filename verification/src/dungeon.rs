use crate::catalog::{DungeonRoom, DungeonRoomType};
use crate::rng::gen_range_usize;
use rand::rngs::StdRng;
use vstd::prelude::*;

verus! {

/// The rooms of a dungeon keyed by their grid position, in the order they were added.
#[derive(Clone, Debug)]
pub struct DungeonMap {
    entries: Vec<((i32, i32), DungeonRoom)>,
}

/// The four neighbour offsets in the order the generator tries them: north,
/// south, east, west.
pub open spec fn dir_offset(d: int) -> (int, int) {
    if d == 0 {
        (0, -1)
    } else if d == 1 {
        (0, 1)
    } else if d == 2 {
        (1, 0)
    } else {
        (-1, 0)
    }
}

/// The Manhattan distance of a position from the start room.
pub open spec fn dist(p: (i32, i32)) -> int {
    (if p.0 >= 0 { p.0 as int } else { -p.0 }) + (if p.1 >= 0 { p.1 as int } else { -p.1 })
}

impl DungeonMap {
    /// The positions, in the order the rooms were added.
    pub closed spec fn keys(&self) -> Seq<(i32, i32)> {
        self.entries@.map_values(|e: ((i32, i32), DungeonRoom)| e.0)
    }

    /// No position appears twice.
    pub closed spec fn wf(&self) -> bool {
        self.keys().no_duplicates()
    }

    /// The dungeon as a map from position to room.
    pub closed spec fn view(&self) -> Map<(i32, i32), DungeonRoom> {
        Map::new(
            |k: (i32, i32)| self.keys().contains(k),
            |k: (i32, i32)| self.entries@[self.keys().index_of(k)].1,
        )
    }

    /// An empty dungeon.
    pub fn new() -> (m: DungeonMap)
        ensures
            m.wf(),
            m@ == Map::<(i32, i32), DungeonRoom>::empty(),
            m.keys().len() == 0,
    {
        let m = DungeonMap { entries: Vec::new() };
        assert(m.keys() =~= Seq::<(i32, i32)>::empty());
        assert(m@ =~= Map::<(i32, i32), DungeonRoom>::empty());
        m
    }

    /// The number of rooms.
    pub fn len(&self) -> (r: usize)
        requires
            self.wf(),
        ensures
            r == self@.dom().len(),
            r == self.keys().len(),
    {
        proof {
            self.lemma_dom_len();
        }
        self.entries.len()
    }

    proof fn lemma_dom_len(&self)
        requires
            self.wf(),
        ensures
            self@.dom().finite(),
            self@.dom().len() == self.keys().len(),
            self@.dom() == self.keys().to_set(),
    {
        assert(self@.dom() =~= self.keys().to_set());
        self.keys().unique_seq_to_set();
    }

    fn find(&self, pos: (i32, i32)) -> (r: Option<usize>)
        requires
            self.wf(),
        ensures
            match r {
                Some(i) => i < self.keys().len() && self.keys()[i as int] == pos && self.keys().index_of(pos) == i,
                None => !self.keys().contains(pos),
            },
    {
        let mut i: usize = 0;
        while i < self.entries.len()
            invariant
                self.wf(),
                i <= self.entries@.len(),
                forall|j: int| 0 <= j < i ==> self.keys()[j] != pos,
            decreases self.entries@.len() - i,
        {
            let k = self.entries[i].0;
            if k.0 == pos.0 && k.1 == pos.1 {
                proof {
                    assert(self.keys()[i as int] == pos);
                    self.keys().index_of_first_ensures(pos);
                }
                return Some(i);
            }
            i = i + 1;
        }
        None
    }

    /// Whether a room stands at `pos`.
    pub fn contains_key(&self, pos: (i32, i32)) -> (r: bool)
        requires
            self.wf(),
        ensures
            r == self@.dom().contains(pos),
    {
        self.find(pos).is_some()
    }

    /// The room at `pos`, if any.
    pub fn get(&self, pos: (i32, i32)) -> (r: Option<DungeonRoom>)
        requires
            self.wf(),
        ensures
            r == (if self@.dom().contains(pos) { Some(self@[pos]) } else { None::<DungeonRoom> }),
    {
        match self.find(pos) {
            Some(i) => Some(self.entries[i].1),
            None => None,
        }
    }

    /// Puts `room` at `pos`, replacing the room there; a new position goes last.
    pub fn insert(&mut self, pos: (i32, i32), room: DungeonRoom)
        requires
            old(self).wf(),
        ensures
            final(self).wf(),
            final(self)@ == old(self)@.insert(pos, room),
            old(self).keys().contains(pos) ==> final(self).keys() == old(self).keys(),
            !old(self).keys().contains(pos) ==> final(self).keys() == old(self).keys().push(pos),
    {
        let ghost ok = self.keys();
        match self.find(pos) {
            Some(i) => {
                self.entries.set(i, (pos, room));
                proof {
                    assert(self.keys() =~= ok);
                    assert(self@ =~= old(self)@.insert(pos, room));
                }
            },
            None => {
                self.entries.push((pos, room));
                proof {
                    assert(self.keys() =~= ok.push(pos));
                    assert forall|k: (i32, i32)| ok.contains(k) implies self.keys().index_of(k) == ok.index_of(k) by {
                        ok.index_of_first_ensures(k);
                        self.keys().index_of_first_ensures(k);
                        let i = ok.index_of(k);
                        assert(self.keys()[i] == k);
                    }
                    assert(self.keys().index_of(pos) == ok.len()) by {
                        self.keys().index_of_first_ensures(pos);
                        assert(self.keys()[ok.len() as int] == pos);
                    }
                    assert forall|k: (i32, i32)| #[trigger] self@.dom().contains(k) implies self@[k] == old(self)@.insert(pos, room)[k] by {
                        if k != pos {
                            assert(ok.contains(k));
                            ok.index_of_first_ensures(k);
                            assert(self.entries@[ok.index_of(k)] == old(self).entries@[ok.index_of(k)]);
                        }
                    }
                    assert forall|k: (i32, i32)| self.keys().contains(k) <==> (ok.contains(k) || k == pos) by {
                        if self.keys().contains(k) {
                            let i = choose|i: int| 0 <= i < self.keys().len() && self.keys()[i] == k;
                            if i < ok.len() {
                                assert(ok[i] == k);
                            }
                        }
                        if ok.contains(k) {
                            let i = choose|i: int| 0 <= i < ok.len() && ok[i] == k;
                            assert(self.keys()[i] == k);
                        }
                        if k == pos {
                            assert(self.keys()[ok.len() as int] == k);
                        }
                    }
                    assert(self@.dom() =~= old(self)@.insert(pos, room).dom());
                    assert(self@ =~= old(self)@.insert(pos, room));
                }
            },
        }
    }

    /// The positions, in the order the rooms were added.
    pub fn positions(&self) -> (r: Vec<(i32, i32)>)
        ensures
            r@ == self.keys(),
    {
        let mut out: Vec<(i32, i32)> = Vec::new();
        let mut i: usize = 0;
        while i < self.entries.len()
            invariant
                i <= self.entries@.len(),
                out@ == self.keys().take(i as int),
            decreases self.entries@.len() - i,
        {
            out.push(self.entries[i].0);
            i = i + 1;
            assert(out@ =~= self.keys().take(i as int));
        }
        assert(self.keys().take(i as int) =~= self.keys());
        out
    }
}

/// `p` moved one room in direction `d` (north, south, east, west).
pub open spec fn shift(p: (i32, i32), d: int) -> (i32, i32) {
    ((p.0 + dir_offset(d).0) as i32, (p.1 + dir_offset(d).1) as i32)
}

/// The direction that undoes `d`.
pub open spec fn back(d: int) -> int {
    if d == 0 { 1 } else if d == 1 { 0 } else if d == 2 { 3 } else { 2 }
}

/// Whether `r` has a door in direction `d`.
pub open spec fn door(r: DungeonRoom, d: int) -> bool {
    if d == 0 {
        r.north_door
    } else if d == 1 {
        r.south_door
    } else if d == 2 {
        r.east_door
    } else {
        r.west_door
    }
}

/// `r` with a door opened in direction `d`.
pub open spec fn with_door(r: DungeonRoom, d: int) -> DungeonRoom {
    if d == 0 {
        DungeonRoom { north_door: true, ..r }
    } else if d == 1 {
        DungeonRoom { south_door: true, ..r }
    } else if d == 2 {
        DungeonRoom { east_door: true, ..r }
    } else {
        DungeonRoom { west_door: true, ..r }
    }
}

/// Every door leads to a room that has the matching door back.
pub open spec fn doors_match(m: Map<(i32, i32), DungeonRoom>) -> bool {
    forall|p: (i32, i32), d: int|
        #![trigger door(m[p], d)]
        m.dom().contains(p) && 0 <= d < 4 && door(m[p], d) ==> m.dom().contains(shift(p, d)) && door(
            m[shift(p, d)],
            back(d),
        )
}

/// The room added `k`-th was reached through a door of a room added before it.
pub open spec fn reached(keys: Seq<(i32, i32)>, m: Map<(i32, i32), DungeonRoom>, k: int) -> bool {
    exists|j: int, d: int|
        #![trigger door(m[keys[j]], d)]
        0 <= j < k && 0 <= d < 4 && shift(keys[j], d) == keys[k] && door(m[keys[j]], d)
}

/// Every room after the first was reached through a door from an earlier room.
pub open spec fn grown_from_start(keys: Seq<(i32, i32)>, m: Map<(i32, i32), DungeonRoom>) -> bool {
    forall|k: int| 1 <= k < keys.len() ==> #[trigger] reached(keys, m, k)
}

/// All positions lie within `n` rooms of the start in each axis.
pub open spec fn within(keys: Seq<(i32, i32)>, n: int) -> bool {
    forall|i: int| 0 <= i < keys.len() ==> -n <= (#[trigger] keys[i]).0 <= n && -n <= keys[i].1 <= n
}

proof fn lemma_shift_back(p: (i32, i32), d: int, n: int)
    requires
        0 <= d < 4,
        -n <= p.0 <= n,
        -n <= p.1 <= n,
        n < i32::MAX,
    ensures
        shift(shift(p, d), back(d)) == p,
        -(n + 1) <= shift(p, d).0 <= n + 1,
        -(n + 1) <= shift(p, d).1 <= n + 1,
{
}

/// Among a non-empty set of positions one lies furthest east, so the cell east
/// of it is free.
proof fn lemma_has_east_edge(keys: Seq<(i32, i32)>, n: int)
    requires
        keys.len() > 0,
        within(keys, n),
        n < i32::MAX,
    ensures
        exists|i: int| 0 <= i < keys.len() && !keys.contains(#[trigger] shift(keys[i], 2)),
    decreases keys.len(),
{
    let best = lemma_east_most(keys);
    let e = shift(keys[best], 2);
    if keys.contains(e) {
        let j = choose|j: int| 0 <= j < keys.len() && keys[j] == e;
        assert(keys[j].0 <= keys[best].0);
    }
}

proof fn lemma_east_most(keys: Seq<(i32, i32)>) -> (best: int)
    requires
        keys.len() > 0,
    ensures
        0 <= best < keys.len(),
        forall|j: int| 0 <= j < keys.len() ==> keys[j].0 <= keys[best].0,
    decreases keys.len(),
{
    if keys.len() == 1 {
        0
    } else {
        let b = lemma_east_most(keys.drop_last());
        if keys.last().0 > keys[b].0 {
            assert forall|j: int| 0 <= j < keys.len() implies keys[j].0 <= keys.last().0 by {
                if j < keys.len() - 1 {
                    assert(keys[j] == keys.drop_last()[j]);
                }
            }
            (keys.len() - 1) as int
        } else {
            assert forall|j: int| 0 <= j < keys.len() implies keys[j].0 <= keys[b].0 by {
                if j < keys.len() - 1 {
                    assert(keys[j] == keys.drop_last()[j]);
                }
            }
            b
        }
    }
}

fn dir_of(d: usize) -> (r: (i32, i32))
    requires
        d < 4,
    ensures
        r.0 == dir_offset(d as int).0,
        r.1 == dir_offset(d as int).1,
{
    if d == 0 {
        (0, -1)
    } else if d == 1 {
        (0, 1)
    } else if d == 2 {
        (1, 0)
    } else {
        (-1, 0)
    }
}

fn open_door(r: DungeonRoom, d: usize) -> (out: DungeonRoom)
    requires
        d < 4,
    ensures
        out == with_door(r, d as int),
{
    let mut r = r;
    if d == 0 {
        r.north_door = true;
    } else if d == 1 {
        r.south_door = true;
    } else if d == 2 {
        r.east_door = true;
    } else {
        r.west_door = true;
    }
    r
}

/// The directions from `pos`, in the order north, south, east, west, that
/// lead to no room yet.
fn free_directions(grid: &DungeonMap, pos: (i32, i32), n: Ghost<int>) -> (r: Vec<usize>)
    requires
        grid.wf(),
        -n@ <= pos.0 <= n@,
        -n@ <= pos.1 <= n@,
        n@ < i32::MAX,
    ensures
        forall|i: int| 0 <= i < r@.len() ==> (#[trigger] r@[i]) < 4 && !grid.keys().contains(shift(pos, r@[i] as int)),
        forall|e: int| 0 <= e < 4 && !grid.keys().contains(shift(pos, e)) ==> r@.contains(e as usize),
{
    let mut available: Vec<usize> = Vec::new();
    let mut d: usize = 0;
    while d < 4
        invariant
            grid.wf(),
            d <= 4,
            -n@ <= pos.0 <= n@,
            -n@ <= pos.1 <= n@,
            n@ < i32::MAX,
            forall|i: int| 0 <= i < available@.len() ==> (#[trigger] available@[i]) < d && !grid.keys().contains(shift(pos, available@[i] as int)),
            forall|e: int| 0 <= e < d && !grid.keys().contains(shift(pos, e)) ==> available@.contains(e as usize),
        decreases 4 - d,
    {
        let (dx, dy) = dir_of(d);
        let np: (i32, i32) = (pos.0 + dx, pos.1 + dy);
        assert(np == shift(pos, d as int));
        let ghost a0 = available@;
        if !grid.contains_key(np) {
            available.push(d);
        }
        proof {
            lemma_push_contains_all(a0, available@, d);
        }
        d = d + 1;
    }
    available
}

proof fn lemma_push_contains_all(a0: Seq<usize>, a1: Seq<usize>, d: usize)
    requires
        a1 == a0 || a1 == a0.push(d),
    ensures
        forall|x: usize| a0.contains(x) ==> a1.contains(x),
        a1 == a0.push(d) ==> a1.contains(d),
        forall|i: int| 0 <= i < a1.len() ==> a1[i] == d || a0.contains(#[trigger] a1[i]),
{
    assert forall|x: usize| a0.contains(x) implies a1.contains(x) by {
        let t = choose|t: int| 0 <= t < a0.len() && a0[t] == x;
        assert(a1[t] == x);
    }
    if a1 == a0.push(d) {
        assert(a1[a0.len() as int] == d);
    }
    assert forall|i: int| 0 <= i < a1.len() implies a1[i] == d || a0.contains(#[trigger] a1[i]) by {
        if i < a0.len() {
            assert(a1[i] == a0[i]);
        }
    }
}

proof fn lemma_with_door(r: DungeonRoom, dir: int, d: int)
    requires
        0 <= dir < 4,
        0 <= d < 4,
    ensures
        door(with_door(r, dir), d) == (door(r, d) || d == dir),
        with_door(r, dir).r_type == r.r_type,
        with_door(r, dir).cleared == r.cleared,
{
}

/// The rooms after opening a pair of doors between `pos` and a new room at `new_pos`.
pub open spec fn attached(m0: Map<(i32, i32), DungeonRoom>, pos: (i32, i32), dir: int, new_pos: (i32, i32)) -> Map<(i32, i32), DungeonRoom> {
    m0.insert(pos, with_door(m0[pos], dir)).insert(new_pos, with_door(DungeonRoom { r_type: DungeonRoomType::Normal, cleared: false, north_door: false, south_door: false, east_door: false, west_door: false }, back(dir)))
}

/// Opening a pair of doors between `pos` and a new room next to it keeps every
/// door matched.
proof fn lemma_attach_doors(m0: Map<(i32, i32), DungeonRoom>, pos: (i32, i32), dir: int, new_pos: (i32, i32))
    requires
        0 <= dir < 4,
        new_pos == shift(pos, dir),
        shift(new_pos, back(dir)) == pos,
        m0.dom().contains(pos),
        !m0.dom().contains(new_pos),
        doors_match(m0),
    ensures
        doors_match(attached(m0, pos, dir, new_pos)),
{
    let m1 = attached(m0, pos, dir, new_pos);
    assert forall|p: (i32, i32), d: int| #![trigger door(m1[p], d)] m1.dom().contains(p) && 0 <= d < 4 && door(m1[p], d) implies m1.dom().contains(shift(p, d)) && door(m1[shift(p, d)], back(d)) by {
        if p == new_pos {
            lemma_with_door(DungeonRoom { r_type: DungeonRoomType::Normal, cleared: false, north_door: false, south_door: false, east_door: false, west_door: false }, back(dir), d);
            assert(d == back(dir));
            lemma_with_door(m0[pos], dir, dir);
        } else if p == pos && d == dir {
            lemma_with_door(DungeonRoom { r_type: DungeonRoomType::Normal, cleared: false, north_door: false, south_door: false, east_door: false, west_door: false }, back(dir), back(dir));
        } else {
            if p == pos {
                lemma_with_door(m0[pos], dir, d);
            }
            assert(door(m0[p], d));
            let q = shift(p, d);
            assert(m0.dom().contains(q));
            assert(door(m0[q], back(d)));
            assert(q != new_pos);
            if q == pos {
                lemma_with_door(m0[pos], dir, back(d));
            }
        }
    }
}

/// Opening a pair of doors between `pos` and a new room next to it keeps
/// every room reachable from the start.
proof fn lemma_attach_grown(m0: Map<(i32, i32), DungeonRoom>, keys0: Seq<(i32, i32)>, pos: (i32, i32), dir: int, new_pos: (i32, i32))
    requires
        0 <= dir < 4,
        new_pos == shift(pos, dir),
        !m0.dom().contains(new_pos),
        keys0.contains(pos),
        forall|k: (i32, i32)| m0.dom().contains(k) <==> keys0.contains(k),
        grown_from_start(keys0, m0),
    ensures
        grown_from_start(keys0.push(new_pos), attached(m0, pos, dir, new_pos)),
{
    let m1 = attached(m0, pos, dir, new_pos);
    let keys1 = keys0.push(new_pos);
    assert forall|k: int| 1 <= k < keys1.len() implies #[trigger] reached(keys1, m1, k) by {
        if k == keys0.len() {
            let t = choose|t: int| 0 <= t < keys0.len() && keys0[t] == pos;
            assert(keys1[t] == pos);
            lemma_with_door(m0[pos], dir, dir);
            assert(shift(keys1[t], dir) == keys1[k] && door(m1[keys1[t]], dir));
        } else {
            assert(reached(keys0, m0, k));
            assert(keys1[k] == keys0[k]);
            let (j, d) = choose|j: int, d: int| 0 <= j < k && 0 <= d < 4 && shift(keys0[j], d) == keys0[k] && door(m0[keys0[j]], d);
            assert(keys1[j] == keys0[j]);
            assert(keys0.contains(keys0[j]));
            assert(keys0[j] != new_pos);
            lemma_with_door(m0[pos], dir, d);
            assert(shift(keys1[j], d) == keys1[k] && door(m1[keys1[j]], d));
        }
    }
}

proof fn lemma_push_within(keys0: Seq<(i32, i32)>, p: (i32, i32), n: int)
    requires
        within(keys0, n),
        -(n + 1) <= p.0 <= n + 1,
        -(n + 1) <= p.1 <= n + 1,
    ensures
        within(keys0.push(p), n + 1),
{
    assert forall|i: int| 0 <= i < keys0.push(p).len() implies -(n + 1) <= (#[trigger] keys0.push(p)[i]).0 <= n + 1 && -(n + 1) <= keys0.push(p)[i].1 <= n + 1 by {
        if i < keys0.len() {
            assert(keys0.push(p)[i] == keys0[i]);
        }
    }
}

/// The new room is an ordinary one, the start keeps its kind, and no room is cleared.
proof fn lemma_attach_kinds(m0: Map<(i32, i32), DungeonRoom>, pos: (i32, i32), dir: int, new_pos: (i32, i32))
    requires
        0 <= dir < 4,
        new_pos != (0i32, 0i32),
        m0.dom().contains(pos),
        forall|p: (i32, i32)| #[trigger] m0.dom().contains(p) ==> m0[p].r_type == (if p == (0i32, 0i32) { DungeonRoomType::Start } else { DungeonRoomType::Normal }),
        forall|p: (i32, i32)| #[trigger] m0.dom().contains(p) ==> !m0[p].cleared,
    ensures
        forall|p: (i32, i32)| #[trigger] attached(m0, pos, dir, new_pos).dom().contains(p) ==> attached(m0, pos, dir, new_pos)[p].r_type == (if p == (0i32, 0i32) { DungeonRoomType::Start } else { DungeonRoomType::Normal }),
        forall|p: (i32, i32)| #[trigger] attached(m0, pos, dir, new_pos).dom().contains(p) ==> !attached(m0, pos, dir, new_pos)[p].cleared,
{
    lemma_with_door(m0[pos], dir, 0);
    lemma_with_door(DungeonRoom { r_type: DungeonRoomType::Normal, cleared: false, north_door: false, south_door: false, east_door: false, west_door: false }, back(dir), 0);
}

/// Adds a room next to `pos` in direction `dir` with a pair of doors between them.
#[verifier::rlimit(40)]
fn attach_room(grid: &mut DungeonMap, pos: (i32, i32), dir: usize, n: Ghost<int>) -> (np: (i32, i32))
    requires
        old(grid).wf(),
        old(grid).keys().contains(pos),
        dir < 4,
        !old(grid).keys().contains(shift(pos, dir as int)),
        within(old(grid).keys(), n@),
        0 <= n@ < i32::MAX - 1,
        doors_match(old(grid)@),
        grown_from_start(old(grid).keys(), old(grid)@),
        forall|p: (i32, i32)| #[trigger] old(grid)@.dom().contains(p) ==> old(grid)@[p].r_type == (if p == (0i32, 0i32) { DungeonRoomType::Start } else { DungeonRoomType::Normal }),
        forall|p: (i32, i32)| #[trigger] old(grid)@.dom().contains(p) ==> !old(grid)@[p].cleared,
        old(grid).keys().contains((0i32, 0i32)),
    ensures
        np == shift(pos, dir as int),
        final(grid).wf(),
        final(grid).keys() == old(grid).keys().push(np),
        within(final(grid).keys(), n@ + 1),
        doors_match(final(grid)@),
        grown_from_start(final(grid).keys(), final(grid)@),
        forall|p: (i32, i32)| #[trigger] final(grid)@.dom().contains(p) ==> final(grid)@[p].r_type == (if p == (0i32, 0i32) { DungeonRoomType::Start } else { DungeonRoomType::Normal }),
        forall|p: (i32, i32)| #[trigger] final(grid)@.dom().contains(p) ==> !final(grid)@[p].cleared,
{
    let ghost keys0 = grid.keys();
    let ghost m0 = grid@;
    proof {
        let t = choose|t: int| 0 <= t < keys0.len() && keys0[t] == pos;
        assert(-n@ <= keys0[t].0 <= n@ && -n@ <= keys0[t].1 <= n@);
        lemma_shift_back(pos, dir as int, n@);
    }
    let (dx, dy) = dir_of(dir);
    let new_pos: (i32, i32) = (pos.0 + dx, pos.1 + dy);
    assert(new_pos != (0i32, 0i32));
    grid.insert(new_pos, DungeonRoom::new(DungeonRoomType::Normal));
    let room1 = open_door(grid.get(pos).unwrap(), dir);
    let bdir: usize = if dir == 0 { 1 } else if dir == 1 { 0 } else if dir == 2 { 3 } else { 2 };
    let room2 = open_door(grid.get(new_pos).unwrap(), bdir);
    grid.insert(pos, room1);
    grid.insert(new_pos, room2);
    proof {
        assert(bdir as int == back(dir as int));
        assert(grid.keys() == keys0.push(new_pos));
        assert(grid@ =~= attached(m0, pos, dir as int, new_pos));
        assert(m0.dom().contains(pos));
        lemma_attach_doors(m0, pos, dir as int, new_pos);
        assert forall|k: (i32, i32)| m0.dom().contains(k) <==> keys0.contains(k) by {}
        lemma_attach_grown(m0, keys0, pos, dir as int, new_pos);
        lemma_push_within(keys0, new_pos, n@);
        lemma_attach_kinds(m0, pos, dir as int, new_pos);
    }
    new_pos
}

/// The number of rooms of a dungeon of `level`.
pub open spec fn dungeon_size(level: u32) -> int {
    5 + 2 * level
}

/// The rooms of a dungeon of `level` before the boss and treasure rooms are
/// chosen: a start room at the origin, then rooms grown one at a time from a
/// random room of the frontier in a random free direction, with a pair of
/// matching doors between the two rooms.
#[verifier::rlimit(40)]
fn grow_dungeon(level: u32, rng: &mut StdRng) -> (grid: DungeonMap)
    requires
        dungeon_size(level) < i32::MAX,
    ensures
        grid.wf(),
        grid.keys().len() == dungeon_size(level),
        grid.keys()[0] == (0i32, 0i32),
        doors_match(grid@),
        grown_from_start(grid.keys(), grid@),
        within(grid.keys(), dungeon_size(level)),
        forall|p: (i32, i32)| #[trigger] grid@.dom().contains(p) ==> grid@[p].r_type == (if p == (0i32, 0i32) { DungeonRoomType::Start } else { DungeonRoomType::Normal }),
        forall|p: (i32, i32)| #[trigger] grid@.dom().contains(p) ==> !grid@[p].cleared,
{
    let mut grid = DungeonMap::new();
    let num_rooms: u32 = 5 + level * 2;
    let start_pos: (i32, i32) = (0, 0);
    grid.insert(start_pos, DungeonRoom::new(DungeonRoomType::Start));
    let mut current_rooms: Vec<(i32, i32)> = Vec::new();
    current_rooms.push(start_pos);
    let mut num_generated: u32 = 1;
    assert(grid.keys() =~= seq![start_pos]);
    while num_generated < num_rooms && current_rooms.len() > 0
        invariant
            num_rooms == dungeon_size(level),
            num_rooms < i32::MAX,
            1 <= num_generated <= num_rooms,
            grid.wf(),
            grid.keys().len() == num_generated,
            grid.keys()[0] == start_pos,
            start_pos == (0i32, 0i32),
            within(grid.keys(), num_generated as int),
            doors_match(grid@),
            grown_from_start(grid.keys(), grid@),
            forall|i: int| 0 <= i < current_rooms@.len() ==> grid.keys().contains(#[trigger] current_rooms@[i]),
            forall|i: int, d: int| 0 <= i < grid.keys().len() && 0 <= d < 4 && !grid.keys().contains(#[trigger] shift(grid.keys()[i], d)) ==> current_rooms@.contains(grid.keys()[i]),
            forall|p: (i32, i32)| #[trigger] grid@.dom().contains(p) ==> grid@[p].r_type == (if p == (0i32, 0i32) { DungeonRoomType::Start } else { DungeonRoomType::Normal }),
            forall|p: (i32, i32)| #[trigger] grid@.dom().contains(p) ==> !grid@[p].cleared,
        decreases 2 * (num_rooms - num_generated) + current_rooms@.len(),
    {
        let idx = gen_range_usize(rng, 0, current_rooms.len());
        let pos = current_rooms[idx];
        let ghost keys0 = grid.keys();
        proof {
            let pi = choose|i: int| 0 <= i < keys0.len() && keys0[i] == pos;
            assert(-(num_generated as int) <= pos.0 <= num_generated && -(num_generated as int) <= pos.1 <= num_generated) by {
                assert(keys0[pi] == pos);
            }
        }
        let available = free_directions(&grid, pos, Ghost(num_generated as int));
        if available.len() == 0 {
            let ghost cr0 = current_rooms@;
            let _ = current_rooms.remove(idx);
            assert(cr0[idx as int] == pos);
            proof {
                assert forall|i: int, e: int| 0 <= i < grid.keys().len() && 0 <= e < 4 && !grid.keys().contains(#[trigger] shift(grid.keys()[i], e)) implies current_rooms@.contains(grid.keys()[i]) by {
                    let k = grid.keys()[i];
                    if k == pos {
                        assert(available@.contains(e as usize));
                    } else {
                        assert(cr0.contains(k));
                        let t = choose|t: int| 0 <= t < cr0.len() && cr0[t] == k;
                        if t < idx {
                            assert(current_rooms@[t] == k);
                        } else {
                            assert(t != idx);
                            assert(current_rooms@[t - 1] == k);
                        }
                    }
                }
                assert forall|i: int| 0 <= i < current_rooms@.len() implies grid.keys().contains(#[trigger] current_rooms@[i]) by {
                    if i < idx {
                        assert(current_rooms@[i] == cr0[i]);
                    } else {
                        assert(current_rooms@[i] == cr0[i + 1]);
                    }
                }
            }
            continue;
        }
        let dir = available[gen_range_usize(rng, 0, available.len())];
        let ghost cr0 = current_rooms@;
        proof {
            assert(grid.keys()[0] == start_pos);
        }
        let new_pos = attach_room(&mut grid, pos, dir, Ghost(num_generated as int));
        current_rooms.push(new_pos);
        num_generated = num_generated + 1;
        proof {
            assert forall|i: int| 0 <= i < current_rooms@.len() implies grid.keys().contains(#[trigger] current_rooms@[i]) by {
                if i < cr0.len() {
                    assert(current_rooms@[i] == cr0[i]);
                    let t = choose|t: int| 0 <= t < keys0.len() && keys0[t] == cr0[i];
                    assert(grid.keys()[t] == cr0[i]);
                } else {
                    assert(grid.keys()[keys0.len() as int] == new_pos);
                }
            }
            assert forall|i: int, e: int| 0 <= i < grid.keys().len() && 0 <= e < 4 && !grid.keys().contains(#[trigger] shift(grid.keys()[i], e)) implies current_rooms@.contains(grid.keys()[i]) by {
                if i < keys0.len() {
                    let k = grid.keys()[i];
                    assert(k == keys0[i]);
                    if keys0.contains(shift(k, e)) {
                        let t = choose|t: int| 0 <= t < keys0.len() && keys0[t] == shift(k, e);
                        assert(grid.keys()[t] == shift(k, e));
                    }
                    assert(cr0.contains(k));
                    let t = choose|t: int| 0 <= t < cr0.len() && cr0[t] == k;
                    assert(current_rooms@[t] == k);
                } else {
                    assert(current_rooms@[cr0.len() as int] == new_pos);
                }
            }
        }
    }
    proof {
        if num_generated < num_rooms {
            lemma_has_east_edge(grid.keys(), num_generated as int);
            let i = choose|i: int| 0 <= i < grid.keys().len() && !grid.keys().contains(#[trigger] shift(grid.keys()[i], 2));
            assert(current_rooms@.contains(grid.keys()[i]));
        }
    }
    grid
}

/// `r` given the kind `k`, doors and progress kept.
pub open spec fn retyped(r: DungeonRoom, k: DungeonRoomType) -> DungeonRoom {
    DungeonRoom { r_type: k, ..r }
}

/// The kind each room ends with once `b` is the boss room and `t` the
/// treasure room.
pub open spec fn final_kind(p: (i32, i32), b: (i32, i32), t: (i32, i32)) -> DungeonRoomType {
    if p == b {
        DungeonRoomType::Boss
    } else if p == t {
        DungeonRoomType::Treasure
    } else if p == (0i32, 0i32) {
        DungeonRoomType::Start
    } else {
        DungeonRoomType::Normal
    }
}

/// `b` is a room furthest from the start, `t` a room furthest from the start
/// among the others, and every room has the kind that this choice gives it.
pub open spec fn boss_and_treasure(m: Map<(i32, i32), DungeonRoom>, b: (i32, i32), t: (i32, i32)) -> bool {
    &&& b != t
    &&& m.dom().contains(b)
    &&& m.dom().contains(t)
    &&& forall|p: (i32, i32)| #[trigger] m.dom().contains(p) ==> dist(p) <= dist(b)
    &&& forall|p: (i32, i32)| #[trigger] m.dom().contains(p) && p != b ==> dist(p) <= dist(t)
    &&& forall|p: (i32, i32)| #[trigger] m.dom().contains(p) ==> m[p].r_type == final_kind(p, b, t)
}

/// Changing the kind of a room keeps every door, so doors stay matched and
/// every room stays reached.
proof fn lemma_retype(keys: Seq<(i32, i32)>, m: Map<(i32, i32), DungeonRoom>, p: (i32, i32), k: DungeonRoomType)
    requires
        m.dom().contains(p),
    ensures
        doors_match(m) ==> doors_match(m.insert(p, retyped(m[p], k))),
        grown_from_start(keys, m) ==> grown_from_start(keys, m.insert(p, retyped(m[p], k))),
        m.insert(p, retyped(m[p], k)).dom() == m.dom(),
{
    let m1 = m.insert(p, retyped(m[p], k));
    assert(m1.dom() =~= m.dom());
    assert forall|q: (i32, i32), d: int| m.dom().contains(q) implies door(m1[q], d) == door(m[q], d) by {}
    if doors_match(m) {
        assert forall|q: (i32, i32), d: int| #![trigger door(m1[q], d)] m1.dom().contains(q) && 0 <= d < 4 && door(m1[q], d) implies m1.dom().contains(shift(q, d)) && door(m1[shift(q, d)], back(d)) by {
            assert(door(m[q], d));
        }
    }
    if grown_from_start(keys, m) {
        assert forall|i: int| 1 <= i < keys.len() implies #[trigger] reached(keys, m1, i) by {
            assert(reached(keys, m, i));
            let (j, d) = choose|j: int, d: int| 0 <= j < i && 0 <= d < 4 && shift(keys[j], d) == keys[i] && door(m[keys[j]], d);
            if m.dom().contains(keys[j]) {
                assert(door(m1[keys[j]], d));
            } else {
                assert(m1[keys[j]] == m[keys[j]]);
            }
            assert(door(m1[keys[j]], d));
        }
    }
}

fn dist_of(p: (i32, i32)) -> (r: i64)
    ensures
        r == dist(p),
{
    let ax: i64 = if p.0 >= 0 { p.0 as i64 } else { -(p.0 as i64) };
    let ay: i64 = if p.1 >= 0 { p.1 as i64 } else { -(p.1 as i64) };
    ax + ay
}

/// The index of the first position furthest from the start, skipping index `skip`.
fn furthest(keys: &Vec<(i32, i32)>, skip: Option<usize>) -> (r: usize)
    requires
        keys@.len() > (if skip is Some { 1int } else { 0int }),
        skip is Some ==> skip->0 < keys@.len(),
    ensures
        r < keys@.len(),
        skip is Some ==> r != skip->0,
        forall|i: int| 0 <= i < keys@.len() && (skip is Some ==> i != skip->0) ==> dist(#[trigger] keys@[i]) <= dist(keys@[r as int]),
{
    let mut best: usize = if skip == Some(0usize) { 1 } else { 0 };
    let mut best_d: i64 = dist_of(keys[best]);
    let mut i: usize = best + 1;
    while i < keys.len()
        invariant
            keys@.len() > (if skip is Some { 1int } else { 0int }),
            skip is Some ==> skip->0 < keys@.len(),
            best < i <= keys@.len(),
            skip is Some ==> best != skip->0,
            best_d == dist(keys@[best as int]),
            forall|j: int| 0 <= j < i && (skip is Some ==> j != skip->0) ==> dist(#[trigger] keys@[j]) <= best_d,
        decreases keys@.len() - i,
    {
        if skip != Some(i) {
            let d = dist_of(keys[i]);
            if d > best_d {
                best = i;
                best_d = d;
            }
        }
        i = i + 1;
    }
    best
}

/// A dungeon for `level`: `5 + 2 * level` rooms grown from a start room at
/// the origin, each new room joined to an earlier one by a pair of matching
/// doors. A room furthest from the start becomes the boss room and a room
/// furthest from the start among the others the treasure room.
#[verifier::rlimit(40)]
pub fn generate_dungeon(level: u32, rng: &mut StdRng) -> (m: DungeonMap)
    requires
        dungeon_size(level) < i32::MAX,
    ensures
        m.wf(),
        m@.dom().len() == dungeon_size(level),
        m.keys().len() == dungeon_size(level),
        m.keys()[0] == (0i32, 0i32),
        doors_match(m@),
        grown_from_start(m.keys(), m@),
        m@.dom() == m.keys().to_set(),
        exists|b: (i32, i32), t: (i32, i32)| boss_and_treasure(m@, b, t),
        m@.dom().contains((0i32, 0i32)) && m@[(0i32, 0i32)].r_type == DungeonRoomType::Start,
        forall|p: (i32, i32)| #[trigger] m@.dom().contains(p) ==> !m@[p].cleared,
{
    let mut grid = grow_dungeon(level, rng);
    let keys = grid.positions();
    let ghost m0 = grid@;
    let ghost keys0 = grid.keys();
    proof {
        grid.lemma_dom_len();
        assert forall|p: (i32, i32)| m0.dom().contains(p) <==> keys@.contains(p) by {}
    }
    let bi = furthest(&keys, None);
    let ti = furthest(&keys, Some(bi));
    let b = keys[bi];
    let t = keys[ti];
    proof {
        assert(keys0.no_duplicates());
    }
    let rb = grid.get(b).unwrap();
    grid.insert(b, DungeonRoom { r_type: DungeonRoomType::Boss, ..rb });
    let ghost m1 = grid@;
    proof {
        lemma_retype(keys0, m0, b, DungeonRoomType::Boss);
        assert(m1 == m0.insert(b, retyped(m0[b], DungeonRoomType::Boss)));
    }
    let rt = grid.get(t).unwrap();
    grid.insert(t, DungeonRoom { r_type: DungeonRoomType::Treasure, ..rt });
    proof {
        lemma_retype(keys0, m1, t, DungeonRoomType::Treasure);
        assert(grid@ == m1.insert(t, retyped(m1[t], DungeonRoomType::Treasure)));
        grid.lemma_dom_len();
        assert forall|p: (i32, i32)| #[trigger] grid@.dom().contains(p) implies dist(p) <= dist(b) by {
            let i = choose|i: int| 0 <= i < keys@.len() && keys@[i] == p;
        }
        assert forall|p: (i32, i32)| #[trigger] grid@.dom().contains(p) && p != b implies dist(p) <= dist(t) by {
            let i = choose|i: int| 0 <= i < keys@.len() && keys@[i] == p;
            assert(i != bi);
        }
        assert(boss_and_treasure(grid@, b, t));
        let o = (0i32, 0i32);
        assert(keys0[0] == o);
        assert(keys0.contains(o));
        assert(keys@[1] != o && keys@[2] != o) by {
            assert(keys0[1] != keys0[0]);
            assert(keys0[2] != keys0[0]);
        }
        assert(dist(keys@[1]) >= 1 && dist(keys@[2]) >= 1);
        assert(b != o) by {
            assert(dist(keys@[1]) <= dist(b));
        }
        assert(t != o) by {
            if keys@[1] != b {
                assert(grid@.dom().contains(keys@[1]));
                assert(dist(keys@[1]) <= dist(t));
            } else {
                assert(keys@[2] != b);
                assert(grid@.dom().contains(keys@[2]));
                assert(dist(keys@[2]) <= dist(t));
            }
        }
        assert(grid@.dom().contains(o));
    }
    grid
}

} // verus!
