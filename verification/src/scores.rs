use crate::kinds::{Difficulty, GameMode};
use vstd::multiset::Multiset;
use vstd::prelude::*;

verus! {

/// Whether `l` is ordered by score, highest first.
pub open spec fn sorted_desc(l: Seq<(String, u32)>) -> bool {
    forall|i: int, j: int| 0 <= i < j < l.len() ==> l[i].1 >= l[j].1
}

/// The index of the first entry of `l` whose name reads `name`, or `l.len()`.
pub open spec fn name_index(l: Seq<(String, u32)>, name: Seq<char>) -> int
    decreases l.len(),
{
    if l.len() == 0 {
        0
    } else if l[0].0@ == name {
        0
    } else {
        1 + name_index(l.drop_first(), name)
    }
}

/// `l` after `name` scored `score`: an entry of that name keeps the higher
/// of its score and `score`; a new name is added at the end.
pub open spec fn with_score(l: Seq<(String, u32)>, name: String, score: u32) -> Seq<(String, u32)> {
    let i = name_index(l, name@);
    if i < l.len() {
        if l[i].1 < score {
            l.update(i, (l[i].0, score))
        } else {
            l
        }
    } else {
        l.push((name, score))
    }
}

/// The best five of `u`, best first: `r` is ordered by score, holds at most
/// five entries (all when `u` has fewer), takes each entry of `u` at most as
/// often as `u` has it, and every entry left out scores no more than every
/// entry kept.
pub open spec fn best_five(u: Seq<(String, u32)>, r: Seq<(String, u32)>) -> bool {
    &&& sorted_desc(r)
    &&& r.len() == (if u.len() < 5 { u.len() } else { 5 })
    &&& r.to_multiset().subset_of(u.to_multiset())
    &&& forall|e: (String, u32), k: int|
        #![trigger u.to_multiset().count(e), r[k]]
        u.to_multiset().count(e) > r.to_multiset().count(e) && 0 <= k < r.len() ==> e.1 <= r[k].1
}

proof fn lemma_name_index(l: Seq<(String, u32)>, name: Seq<char>)
    ensures
        0 <= name_index(l, name) <= l.len(),
        name_index(l, name) < l.len() ==> l[name_index(l, name)].0@ == name,
        forall|j: int| 0 <= j < name_index(l, name) ==> l[j].0@ != name,
    decreases l.len(),
{
    if l.len() > 0 && l[0].0@ != name {
        lemma_name_index(l.drop_first(), name);
        assert forall|j: int| 0 <= j < name_index(l, name) implies l[j].0@ != name by {
            if j > 0 {
                assert(l[j] == l.drop_first()[j - 1]);
            }
        }
    }
}

/// The position of the entry named `name`, if any.
fn find_name(l: &Vec<(String, u32)>, name: &String) -> (r: usize)
    ensures
        r == name_index(l@, name@),
{
    proof {
        lemma_name_index(l@, name@);
    }
    let mut i: usize = 0;
    while i < l.len()
        invariant
            i <= l@.len(),
            forall|j: int| 0 <= j < i ==> l@[j].0@ != name@,
            0 <= name_index(l@, name@) <= l@.len(),
            name_index(l@, name@) < l@.len() ==> l@[name_index(l@, name@)].0@ == name@,
            forall|j: int| 0 <= j < name_index(l@, name@) ==> l@[j].0@ != name@,
        decreases l@.len() - i,
    {
        if l[i].0 == *name {
            return i;
        }
        i = i + 1;
    }
    i
}

/// The index of the first entry with the highest score.
fn index_of_best(l: &Vec<(String, u32)>) -> (r: usize)
    requires
        l@.len() > 0,
    ensures
        r < l@.len(),
        forall|j: int| 0 <= j < l@.len() ==> l@[j].1 <= l@[r as int].1,
{
    let mut best: usize = 0;
    let mut i: usize = 1;
    while i < l.len()
        invariant
            1 <= i <= l@.len(),
            best < i,
            forall|j: int| 0 <= j < i ==> l@[j].1 <= l@[best as int].1,
        decreases l@.len() - i,
    {
        if l[i].1 > l[best].1 {
            best = i;
        }
        i = i + 1;
    }
    best
}

/// The high-score list after `name` scored `score`: see `with_score` and
/// `best_five`.
pub fn record_score(list: Vec<(String, u32)>, name: String, score: u32) -> (r: Vec<(String, u32)>)
    ensures
        best_five(with_score(list@, name, score), r@),
        names_unique(list@) ==> never_lowered(list@, name, score, r@),
{
    let ghost l0 = list@;
    let mut rest = list;
    let pos = find_name(&rest, &name);
    if pos < rest.len() {
        if rest[pos].1 < score {
            let (n, _) = rest.remove(pos);
            rest.insert(pos, (n, score));
            assert(rest@ =~= l0.update(pos as int, (l0[pos as int].0, score)));
        }
    } else {
        rest.push((name, score));
    }
    let ghost u = rest@;
    assert(u == with_score(l0, name, score));
    proof {
        lemma_with_score_never_lowers(l0, name, score);
    }
    let mut out: Vec<(String, u32)> = Vec::new();
    proof {
        assert(out@.to_multiset() =~= Multiset::empty()) by {
            out@.to_multiset_ensures();
        }
        assert(out@.to_multiset().add(rest@.to_multiset()) =~= u.to_multiset());
    }
    while out.len() < 5 && rest.len() > 0
        invariant
            out@.to_multiset().add(rest@.to_multiset()) == u.to_multiset(),
            out@.len() + rest@.len() == u.len(),
            out@.len() <= 5,
            sorted_desc(out@),
            forall|i: int, j: int| 0 <= i < out@.len() && 0 <= j < rest@.len() ==> rest@[j].1 <= out@[i].1,
        decreases rest@.len(),
    {
        let b = index_of_best(&rest);
        let ghost before = rest@;
        let ghost out0 = out@;
        let e = rest.remove(b);
        proof {
            before.to_multiset_ensures();
            assert(rest@ == before.remove(b as int));
            assert(rest@.to_multiset() =~= before.to_multiset().remove(e));
            assert forall|j: int| 0 <= j < rest@.len() implies rest@[j].1 <= e.1 by {
                if j < b {
                    assert(rest@[j] == before[j]);
                } else {
                    assert(rest@[j] == before[j + 1]);
                }
            }
            assert forall|i: int, j: int| 0 <= i < out0.len() && 0 <= j < rest@.len() implies rest@[j].1 <= out0[i].1 by {
                if j < b {
                    assert(rest@[j] == before[j]);
                } else {
                    assert(rest@[j] == before[j + 1]);
                }
            }
        }
        out.push(e);
        proof {
            out0.to_multiset_ensures();
            assert(out@ == out0.push(e));
            assert(out@.to_multiset() == out0.to_multiset().insert(e));
            assert(out@.to_multiset().add(rest@.to_multiset()) =~= u.to_multiset());
            assert forall|i: int, j: int| 0 <= i < j < out@.len() implies out@[i].1 >= out@[j].1 by {
                if j == out0.len() {
                    assert(before[b as int] == e);
                    assert(out0[i].1 >= before[b as int].1);
                }
            }
        }
    }
    proof {
        assert(out@.to_multiset().subset_of(u.to_multiset()));
        assert forall|e: (String, u32), k: int|
            #![trigger u.to_multiset().count(e), out@[k]]
            u.to_multiset().count(e) > out@.to_multiset().count(e) && 0 <= k < out@.len() implies e.1 <= out@[k].1 by {
            assert(rest@.to_multiset().count(e) > 0);
            rest@.to_multiset_ensures();
            assert(rest@.contains(e));
            let j = choose|j: int| 0 <= j < rest@.len() && rest@[j] == e;
            assert(rest@[j].1 <= out@[k].1);
        }
    }
    proof {
        if names_unique(l0) {
            lemma_record_never_lowers(l0, name, score, out@);
        }
    }
    out
}

/// The file that holds the high scores of a difficulty, or of the daily
/// challenge whatever the difficulty.
pub open spec fn high_score_filename(difficulty: Difficulty, mode: GameMode) -> Seq<char> {
    if mode == GameMode::DailyChallenge {
        "highscore_daily.txt"@
    } else {
        match difficulty {
            Difficulty::Easy => "highscore_easy.txt"@,
            Difficulty::Normal => "highscore_normal.txt"@,
            Difficulty::Hard => "highscore_hard.txt"@,
            Difficulty::Insane => "highscore_insane.txt"@,
            Difficulty::GodMode => "highscore_godmode.txt"@,
        }
    }
}

/// The file that holds the high scores of a difficulty and mode; see
/// `high_score_filename`.
pub fn get_high_score_filename(difficulty: Difficulty, mode: GameMode) -> (r: String)
    ensures
        r@ == high_score_filename(difficulty, mode),
{
    if mode == GameMode::DailyChallenge {
        String::from_str("highscore_daily.txt")
    } else {
        match difficulty {
            Difficulty::Easy => String::from_str("highscore_easy.txt"),
            Difficulty::Normal => String::from_str("highscore_normal.txt"),
            Difficulty::Hard => String::from_str("highscore_hard.txt"),
            Difficulty::Insane => String::from_str("highscore_insane.txt"),
            Difficulty::GodMode => String::from_str("highscore_godmode.txt"),
        }
    }
}

/// No two entries of `l` carry the same name.
pub open spec fn names_unique(l: Seq<(String, u32)>) -> bool {
    forall|a: int, b: int| 0 <= a < b < l.len() ==> l[a].0@ != l[b].0@
}

/// `r`, the list after `name` scored `score` on `l`, lowers no one: an
/// entry of `r` named like an entry of `l` scores at least as much as that
/// entry did, and at least `score` when it is named `name`.
pub open spec fn never_lowered(l: Seq<(String, u32)>, name: String, score: u32, r: Seq<(String, u32)>) -> bool {
    &&& forall|j: int, k: int|
        0 <= j < l.len() && 0 <= k < r.len() && (#[trigger] r[k]).0@ == (#[trigger] l[j]).0@ ==> r[k].1 >= l[j].1
    &&& forall|k: int| 0 <= k < r.len() && (#[trigger] r[k]).0@ == name@ ==> r[k].1 >= score
}

/// Recording a score keeps every entry in place and never lowers one: each
/// entry keeps its name and scores at least as before; the first entry named
/// `name` scores at least `score`; entries of other names are unchanged; and
/// a name not yet listed is added at the end with `score`.
pub proof fn lemma_with_score_never_lowers(l: Seq<(String, u32)>, name: String, score: u32)
    ensures
        ({
            let u = with_score(l, name, score);
            &&& l.len() <= u.len() <= l.len() + 1
            &&& forall|j: int| 0 <= j < l.len() ==> (#[trigger] u[j]).0 == l[j].0 && u[j].1 >= l[j].1
            &&& forall|j: int| 0 <= j < l.len() && l[j].0@ != name@ ==> #[trigger] u[j] == l[j]
            &&& forall|j: int|
                0 <= j < l.len() && l[j].0@ == name@ && (forall|i: int| 0 <= i < j ==> l[i].0@ != name@) ==> #[trigger] u[j].1 >= score
            &&& (forall|j: int| 0 <= j < l.len() ==> l[j].0@ != name@) ==> u == l.push((name, score))
        }),
{
    lemma_name_index(l, name@);
    let i = name_index(l, name@);
    assert forall|j: int|
        0 <= j < l.len() && l[j].0@ == name@ && (forall|i2: int| 0 <= i2 < j ==> l[i2].0@ != name@) implies #[trigger] with_score(
        l,
        name,
        score,
    )[j].1 >= score by {
        if j < i {
            assert(l[j].0@ != name@);
        } else if j > i {
            assert(l[i].0@ == name@);
        }
    }
    if forall|j: int| 0 <= j < l.len() ==> l[j].0@ != name@ {
        if i < l.len() {
            assert(l[i].0@ == name@);
        }
    }
}

/// With names listed once, the high-score list after a score lowers no one
/// (see `never_lowered`).
pub proof fn lemma_record_never_lowers(l: Seq<(String, u32)>, name: String, score: u32, r: Seq<(String, u32)>)
    requires
        names_unique(l),
        best_five(with_score(l, name, score), r),
    ensures
        never_lowered(l, name, score, r),
{
    let u = with_score(l, name, score);
    lemma_with_score_never_lowers(l, name, score);
    lemma_name_index(l, name@);
    let ni = name_index(l, name@);
    r.to_multiset_ensures();
    u.to_multiset_ensures();
    assert forall|k: int| 0 <= k < r.len() implies exists|i: int| 0 <= i < u.len() && u[i] == #[trigger] r[k] by {
        assert(r.to_multiset().count(r[k]) > 0);
        assert(u.to_multiset().count(r[k]) > 0);
        assert(u.contains(r[k]));
    }
    assert forall|j: int, k: int|
        0 <= j < l.len() && 0 <= k < r.len() && (#[trigger] r[k]).0@ == (#[trigger] l[j]).0@ implies r[k].1 >= l[j].1 by {
        let i = choose|i: int| 0 <= i < u.len() && u[i] == r[k];
        if i < l.len() {
            assert(u[i].0 == l[i].0);
            if i != j {
                if i < j {
                    assert(l[i].0@ != l[j].0@);
                } else {
                    assert(l[j].0@ != l[i].0@);
                }
            }
        } else {
            assert(forall|j2: int| 0 <= j2 < l.len() ==> l[j2].0@ != name@) by {
                if ni < l.len() {
                    assert(u == l.update(ni, (l[ni].0, score)) || u == l);
                }
            }
            assert(u == l.push((name, score)));
            assert(u[i] == (name, score));
        }
    }
    assert forall|k: int| 0 <= k < r.len() && (#[trigger] r[k]).0@ == name@ implies r[k].1 >= score by {
        let i = choose|i: int| 0 <= i < u.len() && u[i] == r[k];
        if i < l.len() {
            assert(u[i].0 == l[i].0);
            assert(l[i].0@ == name@);
            assert forall|i2: int| 0 <= i2 < i implies l[i2].0@ != name@ by {
                assert(l[i2].0@ != l[i].0@);
            }
        } else {
            assert(u.len() == l.len() + 1);
            if ni < l.len() {
                assert(u.len() == l.len());
            }
            assert(u == l.push((name, score)));
        }
    }
}

} // verus!
