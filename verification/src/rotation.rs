//! Picking one of the eligible accounts: weighted round robin.
//!
//! Each selection has a tick, the value of a counter that advances once per
//! selection. The ticks walk the candidates in order, so each candidate owns
//! one turn in every round. An account with `f` consecutive failures takes
//! its turn in every `(1 + f)`-th round only: that is its weight,
//! `1 / (1 + f)`. A turn that its owner leaves goes to the account whose
//! last success lies furthest back, among those that take their turns in
//! that round; accounts that tie stand in one after the other. Where no
//! account takes its turn in a round, each owner serves its own.

use vstd::prelude::*;

verus! {

/// An eligible account, with what the pick looks at.
#[derive(Clone, Copy, Debug, PartialEq, Eq)]
pub struct Candidate {
    /// Index of the account in the pool.
    pub index: usize,
    pub failures: u32,
    pub last_success_at: Option<u64>,
}

impl Candidate {
    /// Whether the candidate takes its turn in round `round`.
    pub open spec fn in_turn(self, round: u64) -> bool {
        round as int % (1 + self.failures) == 0
    }

    /// How recently the candidate succeeded: `-1` if never, else the time.
    pub open spec fn idle_rank(self) -> int {
        match self.last_success_at {
            Some(t) => t as int,
            None => -1,
        }
    }

    fn is_in_turn(&self, round: u64) -> (r: bool)
        ensures
            r == self.in_turn(round),
    {
        let period: u64 = 1 + self.failures as u64;
        round % period == 0
    }

    /// Whether `self` succeeded less recently than `other`.
    fn idler_than(&self, other: &Candidate) -> (r: bool)
        ensures
            r == (self.idle_rank() < other.idle_rank()),
    {
        match (self.last_success_at, other.last_success_at) {
            (None, None) => false,
            (None, Some(_)) => true,
            (Some(_), None) => false,
            (Some(a), Some(b)) => a < b,
        }
    }

    fn as_idle_as(&self, other: &Candidate) -> (r: bool)
        ensures
            r == (self.idle_rank() == other.idle_rank()),
    {
        match (self.last_success_at, other.last_success_at) {
            (None, None) => true,
            (None, Some(_)) => false,
            (Some(_), None) => false,
            (Some(a), Some(b)) => a == b,
        }
    }
}

/// The candidates that take their turns in round `round`, in order.
pub open spec fn in_turn_only(c: Seq<Candidate>, round: u64) -> Seq<Candidate>
    decreases c.len(),
{
    if c.len() == 0 {
        c
    } else if c.last().in_turn(round) {
        in_turn_only(c.drop_last(), round).push(c.last())
    } else {
        in_turn_only(c.drop_last(), round)
    }
}

/// The least `idle_rank` among the candidates.
pub open spec fn least_idle(c: Seq<Candidate>) -> int
    decreases c.len(),
{
    if c.len() <= 1 {
        if c.len() == 1 {
            c[0].idle_rank()
        } else {
            -1
        }
    } else {
        let rest = least_idle(c.drop_last());
        if c.last().idle_rank() < rest {
            c.last().idle_rank()
        } else {
            rest
        }
    }
}

/// The candidates whose `idle_rank` is `rank`, in order.
pub open spec fn ranked_only(c: Seq<Candidate>, rank: int) -> Seq<Candidate>
    decreases c.len(),
{
    if c.len() == 0 {
        c
    } else if c.last().idle_rank() == rank {
        ranked_only(c.drop_last(), rank).push(c.last())
    } else {
        ranked_only(c.drop_last(), rank)
    }
}

/// The candidate whose turn the tick is: the ticks walk the candidates in
/// order.
pub open spec fn owner(c: Seq<Candidate>, tick: u64) -> Candidate {
    c[tick as int % c.len() as int]
}

/// How many times the ticks have walked all candidates before `tick`.
pub open spec fn round_of(c: Seq<Candidate>, tick: u64) -> u64 {
    (tick as int / c.len() as int) as u64
}

/// How many of its turns a candidate with `failures` failures has left to
/// others before round `round`, a round in which it leaves one more.
pub open spec fn turns_left(failures: u32, round: u64) -> int {
    round - round as int / (1 + failures) - 1
}

/// Those that may stand in for another in round `round`: of the candidates
/// that take their turns in it, the ones whose last success lies furthest
/// back.
pub open spec fn stand_ins(c: Seq<Candidate>, round: u64) -> Seq<Candidate> {
    ranked_only(in_turn_only(c, round), least_idle(in_turn_only(c, round)))
}

/// Whether the owner of the turn at `tick` makes the pick itself: it takes
/// its turn in this round, or nobody does.
pub open spec fn owner_serves(c: Seq<Candidate>, tick: u64) -> bool {
    owner(c, tick).in_turn(round_of(c, tick)) || in_turn_only(c, round_of(c, tick)).len() == 0
}

/// The candidate picked at `tick`: the owner of the turn where it serves;
/// else one of those that stand in, each in its turn as the owner leaves
/// one turn after another.
pub open spec fn winner(c: Seq<Candidate>, tick: u64) -> Candidate {
    if owner_serves(c, tick) {
        owner(c, tick)
    } else {
        let tied = stand_ins(c, round_of(c, tick));
        tied[turns_left(owner(c, tick).failures, round_of(c, tick)) % tied.len() as int]
    }
}

/// Every candidate in turn is a candidate.
pub proof fn lemma_in_turn_members(c: Seq<Candidate>, round: u64)
    ensures
        in_turn_only(c, round).len() <= c.len(),
        forall|k: int|
            0 <= k < in_turn_only(c, round).len() ==> c.contains(
                #[trigger] in_turn_only(c, round)[k],
            ) && in_turn_only(c, round)[k].in_turn(round),
    decreases c.len(),
{
    if c.len() > 0 {
        let head = c.drop_last();
        lemma_in_turn_members(head, round);
        let got = in_turn_only(c, round);
        assert forall|k: int| 0 <= k < got.len() implies c.contains(#[trigger] got[k])
            && got[k].in_turn(round) by {
            if k < in_turn_only(head, round).len() {
                let x = in_turn_only(head, round)[k];
                assert(head.contains(x));
                let m = choose|m: int| 0 <= m < head.len() && head[m] == x;
                assert(c[m] == x);
            } else {
                assert(c[c.len() - 1] == got[k]);
            }
        }
    }
}

/// The least rank is the rank of a candidate, and no candidate ranks lower.
pub proof fn lemma_least_idle(c: Seq<Candidate>)
    requires
        c.len() > 0,
    ensures
        exists|k: int| 0 <= k < c.len() && c[k].idle_rank() == least_idle(c),
        forall|k: int| 0 <= k < c.len() ==> least_idle(c) <= (#[trigger] c[k]).idle_rank(),
    decreases c.len(),
{
    if c.len() > 1 {
        let head = c.drop_last();
        lemma_least_idle(head);
        let k0 = choose|k: int| 0 <= k < head.len() && head[k].idle_rank() == least_idle(head);
        if c.last().idle_rank() < least_idle(head) {
            assert(c[c.len() - 1].idle_rank() == least_idle(c));
        } else {
            assert(c[k0] == head[k0]);
        }
        assert forall|k: int| 0 <= k < c.len() implies least_idle(c) <= (
        #[trigger] c[k]).idle_rank() by {
            if k < head.len() {
                assert(head[k] == c[k]);
            }
        }
    } else {
        assert(c[0].idle_rank() == least_idle(c));
    }
}

/// The candidates of a rank are candidates of that rank, and there is one
/// for every candidate of that rank.
pub proof fn lemma_ranked_only(c: Seq<Candidate>, rank: int)
    ensures
        ranked_only(c, rank).len() <= c.len(),
        forall|k: int|
            0 <= k < ranked_only(c, rank).len() ==> c.contains(#[trigger] ranked_only(c, rank)[k])
                && ranked_only(c, rank)[k].idle_rank() == rank,
        (exists|k: int| 0 <= k < c.len() && c[k].idle_rank() == rank) ==> ranked_only(
            c,
            rank,
        ).len() > 0,
    decreases c.len(),
{
    if c.len() > 0 {
        let head = c.drop_last();
        lemma_ranked_only(head, rank);
        let got = ranked_only(c, rank);
        assert forall|k: int| 0 <= k < got.len() implies c.contains(#[trigger] got[k])
            && got[k].idle_rank() == rank by {
            if k < ranked_only(head, rank).len() {
                let x = ranked_only(head, rank)[k];
                assert(head.contains(x));
                let m = choose|m: int| 0 <= m < head.len() && head[m] == x;
                assert(c[m] == x);
            } else {
                assert(c[c.len() - 1] == got[k]);
            }
        }
        if exists|k: int| 0 <= k < c.len() && c[k].idle_rank() == rank {
            let k = choose|k: int| 0 <= k < c.len() && c[k].idle_rank() == rank;
            if k < head.len() {
                assert(head[k].idle_rank() == rank);
            }
        }
    }
}

/// The turn of a tick belongs to one of the candidates.
pub proof fn lemma_owner(c: Seq<Candidate>, tick: u64)
    requires
        c.len() > 0,
    ensures
        0 <= (tick as int) % (c.len() as int) < c.len(),
        0 <= (tick as int) / (c.len() as int) <= tick,
        c.contains(owner(c, tick)),
{
    let n = c.len() as int;
    let t = tick as int;
    assert(0 <= t % n < n && 0 <= t / n <= t) by (nonlinear_arith)
        requires
            n > 0,
            t >= 0,
    ;
}

/// In a round in which a candidate leaves its turn, it has left a number of
/// turns before.
pub proof fn lemma_turns_left(failures: u32, round: u64)
    requires
        round as int % (1 + failures) != 0,
    ensures
        0 <= turns_left(failures, round) < round,
{
    let p = 1 + failures as int;
    let r = round as int;
    assert(p >= 2) by {
        if p == 1 {
            assert(r % 1 == 0);
        }
    }
    assert(r >= 1) by {
        if r == 0 {
            assert(0int % p == 0) by (nonlinear_arith)
                requires
                    p >= 2,
            ;
        }
    }
    assert(0 <= r / p && r / p < r) by (nonlinear_arith)
        requires
            p >= 2,
            r >= 1,
    ;
}

/// With candidates to pick from, the winner is one of them. Where the
/// owner of the turn does not serve, the winner takes its turn in this
/// round, and none that does succeeded before it.
pub proof fn lemma_winner(c: Seq<Candidate>, tick: u64)
    requires
        c.len() > 0,
    ensures
        c.contains(winner(c, tick)),
        !owner_serves(c, tick) ==> {
            let pool = in_turn_only(c, round_of(c, tick));
            &&& stand_ins(c, round_of(c, tick)).len() > 0
            &&& pool.contains(winner(c, tick))
            &&& winner(c, tick).in_turn(round_of(c, tick))
            &&& forall|k: int|
                0 <= k < pool.len() ==> winner(c, tick).idle_rank() <= (#[trigger] pool[k]).idle_rank()
        },
{
    lemma_owner(c, tick);
    let round = round_of(c, tick);
    if !owner_serves(c, tick) {
        let pool = in_turn_only(c, round);
        lemma_in_turn_members(c, round);
        lemma_least_idle(pool);
        lemma_ranked_only(pool, least_idle(pool));
        let tied = stand_ins(c, round);
        let k = turns_left(owner(c, tick).failures, round);
        lemma_turns_left(owner(c, tick).failures, round);
        let at = k % tied.len() as int;
        assert(0 <= at < tied.len()) by (nonlinear_arith)
            requires
                k >= 0,
                tied.len() > 0,
                at == k % tied.len() as int,
        ;
        let w = tied[at];
        assert(pool.contains(w));
        let m = choose|m: int| 0 <= m < pool.len() && pool[m] == w;
        assert(c.contains(pool[m]));
    }
}

/// A candidate without failures takes every one of its turns. So where no
/// candidate has failed, the pick is plain round robin, whenever each of
/// them last succeeded: the candidate at the tick modulo their number.
pub proof fn lemma_round_robin(c: Seq<Candidate>, tick: u64)
    requires
        c.len() > 0,
        owner(c, tick).failures == 0,
    ensures
        winner(c, tick) == c[tick as int % c.len() as int],
{
    lemma_owner(c, tick);
}

/// In any run of as many ticks as there are candidates, every candidate
/// owns a turn: `turn` is a tick of the run that belongs to the candidate
/// at `k`.
pub proof fn lemma_each_has_a_turn(n: int, start: int, k: int) -> (turn: int)
    requires
        n > 0,
        start >= 0,
        0 <= k < n,
    ensures
        start <= turn < start + n,
        turn % n == k,
{
    let first = start % n;
    let turn = if k >= first {
        start + (k - first)
    } else {
        start + (k - first) + n
    };
    assert(turn % n == k && 0 <= first < n) by (nonlinear_arith)
        requires
            n > 0,
            start >= 0,
            0 <= k < n,
            first == start % n,
            turn == if k >= first {
                start + (k - first)
            } else {
                start + (k - first) + n
            },
    ;
    turn
}

/// In any run of as many ticks as there are candidates, no candidate owns
/// two turns.
pub proof fn lemma_no_second_turn(n: int, start: int, a: int, b: int)
    requires
        n > 0,
        start <= a < start + n,
        start <= b < start + n,
        a % n == b % n,
    ensures
        a == b,
{
    assert(a == b) by (nonlinear_arith)
        requires
            n > 0,
            -n < a - b < n,
            a % n == b % n,
    ;
}

fn in_turn_at(candidates: &Vec<Candidate>, round: u64) -> (pool: Vec<Candidate>)
    ensures
        pool@ == in_turn_only(candidates@, round),
{
    let mut pool: Vec<Candidate> = Vec::new();
    let mut i: usize = 0;
    proof {
        assert(candidates@.take(0) =~= Seq::<Candidate>::empty());
    }
    while i < candidates.len()
        invariant
            i <= candidates.len(),
            pool@ == in_turn_only(candidates@.take(i as int), round),
        decreases candidates.len() - i,
    {
        proof {
            let next = candidates@.take(i + 1);
            assert(next.drop_last() =~= candidates@.take(i as int));
            assert(next.last() == candidates@[i as int]);
        }
        if candidates[i].is_in_turn(round) {
            pool.push(candidates[i]);
        }
        i += 1;
    }
    proof {
        assert(candidates@.take(candidates@.len() as int) =~= candidates@);
    }
    pool
}

/// Picks the candidate for `tick`.
pub fn pick(candidates: &Vec<Candidate>, tick: u64) -> (picked: Candidate)
    requires
        candidates@.len() > 0,
    ensures
        picked == winner(candidates@, tick),
        candidates@.contains(picked),
{
    proof {
        lemma_winner(candidates@, tick);
        lemma_owner(candidates@, tick);
    }
    let n: u64 = candidates.len() as u64;
    let slot: usize = (tick % n) as usize;
    let round: u64 = tick / n;
    let owner = candidates[slot];
    if owner.is_in_turn(round) {
        return owner;
    }
    let pool = in_turn_at(candidates, round);
    if pool.len() == 0 {
        return owner;
    }
    // the least recent success among those in turn
    let mut least: Candidate = pool[0];
    let mut i: usize = 1;
    proof {
        assert(pool@.take(1).len() == 1);
        assert(pool@.take(1)[0] == pool@[0]);
    }
    while i < pool.len()
        invariant
            1 <= i <= pool.len(),
            least.idle_rank() == least_idle(pool@.take(i as int)),
        decreases pool.len() - i,
    {
        proof {
            let next = pool@.take(i + 1);
            assert(next.drop_last() =~= pool@.take(i as int));
            assert(next.last() == pool@[i as int]);
        }
        if pool[i].idler_than(&least) {
            least = pool[i];
        }
        i += 1;
    }
    proof {
        assert(pool@.take(pool@.len() as int) =~= pool@);
    }
    // those that tie with it
    let mut tied: Vec<Candidate> = Vec::new();
    let mut j: usize = 0;
    let ghost rank = least.idle_rank();
    proof {
        assert(pool@.take(0) =~= Seq::<Candidate>::empty());
    }
    while j < pool.len()
        invariant
            j <= pool.len(),
            rank == least.idle_rank(),
            tied@ == ranked_only(pool@.take(j as int), rank),
        decreases pool.len() - j,
    {
        proof {
            let next = pool@.take(j + 1);
            assert(next.drop_last() =~= pool@.take(j as int));
            assert(next.last() == pool@[j as int]);
        }
        if pool[j].as_idle_as(&least) {
            tied.push(pool[j]);
        }
        j += 1;
    }
    proof {
        assert(pool@.take(pool@.len() as int) =~= pool@);
        assert(tied@ == stand_ins(candidates@, round));
        lemma_turns_left(owner.failures, round);
    }
    let period: u64 = 1 + owner.failures as u64;
    let left: u64 = round - round / period - 1;
    let at: usize = (left % (tied.len() as u64)) as usize;
    tied[at]
}

} // verus!
