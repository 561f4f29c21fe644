//! The best values seen so far, shared by all workers.
//!
//! Every cell holds a running maximum and starts at zero. A worker offers a
//! candidate to a cell in one atomic step that leaves the greater of the two in
//! the cell and hands back what the cell held before. No lock is taken, and
//! whatever the order in which the workers' steps fall, a cell never falls and
//! ends at the greatest candidate offered to it.

use vstd::prelude::*;
use std::sync::atomic::AtomicU64;
use std::sync::atomic::Ordering;
use crate::character::Evaluation;

verus! {

/// The number of health buckets: the table holds a best volume for each health
/// in `0 .. HEALTH_BOUND`.
pub const HEALTH_BOUND: usize = 10_000;

/// What a cell holds once `candidate` was offered to it while it held `stored`.
pub open spec fn raised(stored: u64, candidate: int) -> u64 {
    if candidate > stored && candidate <= u64::MAX {
        candidate as u64
    } else {
        stored
    }
}

/// What a cell holds once the `candidates` were offered to it one after the
/// other, the first of them while it held `stored`.
pub open spec fn settled(stored: u64, candidates: Seq<int>) -> u64
    decreases candidates.len(),
{
    if candidates.len() == 0 {
        stored
    } else {
        raised(settled(stored, candidates.drop_last()), candidates.last())
    }
}

/// An offer never lowers a cell, and changes it only to a greater candidate.
pub proof fn lemma_raised_monotone(stored: u64, candidate: int)
    ensures
        raised(stored, candidate) >= stored,
        raised(stored, candidate) != stored ==> raised(stored, candidate) == candidate,
{
}

/// Two offers leave the same value in either order.
pub proof fn lemma_raised_commutes(stored: u64, a: int, b: int)
    ensures
        raised(raised(stored, a), b) == raised(raised(stored, b), a),
{
}

/// After a run of offers a cell holds the greatest of what it held before and
/// the candidates: it is no less than any of them, and it is one of them.
pub proof fn lemma_settled_is_maximum(stored: u64, candidates: Seq<int>)
    requires
        forall|i: int| 0 <= i < candidates.len() ==> candidates[i] <= u64::MAX,
    ensures
        settled(stored, candidates) >= stored,
        forall|i: int| 0 <= i < candidates.len() ==> settled(stored, candidates) >= candidates[i],
        settled(stored, candidates) == stored || exists|i: int|
            0 <= i < candidates.len() && settled(stored, candidates) == candidates[i],
    decreases candidates.len(),
{
    if candidates.len() > 0 {
        let front = candidates.drop_last();
        lemma_settled_is_maximum(stored, front);
        let s = settled(stored, candidates);
        if s == candidates.last() {
            assert(s == candidates[candidates.len() - 1]);
        } else if s != stored {
            let i = choose|i: int| 0 <= i < front.len() && settled(stored, front) == front[i];
            assert(s == candidates[i]);
        }
        assert forall|i: int| 0 <= i < candidates.len() implies s >= candidates[i] by {
            if i < front.len() {
                assert(candidates[i] == front[i]);
            }
        }
    }
}

/// A fresh cell that was offered candidates, none of them negative, ends at
/// the greatest of them, in whatever order they were offered.
pub proof fn lemma_fresh_cell_ends_at_maximum(candidates: Seq<int>)
    requires
        candidates.len() > 0,
        forall|i: int| 0 <= i < candidates.len() ==> 0 <= #[trigger] candidates[i] <= u64::MAX,
    ensures
        forall|i: int| 0 <= i < candidates.len() ==> candidates[i] <= settled(0, candidates),
        exists|i: int| 0 <= i < candidates.len() && settled(0, candidates) == candidates[i],
{
    lemma_settled_is_maximum(0, candidates);
    if settled(0, candidates) == 0 {
        assert(candidates[0] == 0);
    }
}

/// The order of the offers does not matter: two runs of the same candidates,
/// however interleaved, leave the same value.
pub proof fn lemma_settled_any_order(stored: u64, a: Seq<int>, b: Seq<int>)
    requires
        a.to_multiset() == b.to_multiset(),
        forall|i: int| 0 <= i < a.len() ==> a[i] <= u64::MAX,
    ensures
        settled(stored, a) == settled(stored, b),
{
    a.to_multiset_ensures();
    b.to_multiset_ensures();
    assert forall|j: int| 0 <= j < b.len() implies b[j] <= u64::MAX by {
        assert(b.to_multiset().count(b[j]) > 0);
        assert(a.to_multiset().count(b[j]) > 0);
        assert(a.contains(b[j]));
    }
    lemma_settled_is_maximum(stored, a);
    lemma_settled_is_maximum(stored, b);
    let sa = settled(stored, a);
    let sb = settled(stored, b);
    if sa != stored {
        let i = choose|i: int| 0 <= i < a.len() && sa == a[i];
        assert(a.to_multiset().count(a[i]) > 0);
        assert(b.contains(a[i]));
    }
    if sb != stored {
        let j = choose|j: int| 0 <= j < b.len() && sb == b[j];
        assert(b.to_multiset().count(b[j]) > 0);
        assert(a.contains(b[j]));
    }
}

/// The statistics that the tracker follows, in the order in which a loadout is
/// offered to them.
#[derive(Clone, Copy, PartialEq, Eq, Structural, Debug)]
pub enum Metric {
    Health,
    Volume,
    Mana,
    Healing,
}

/// What an offer to a cell came to.
#[derive(Clone, Copy, PartialEq, Eq, Structural, Debug)]
pub struct Raise {
    /// What the cell held before the offer.
    pub previous: u64,
    /// Whether the candidate went into the cell.
    pub improved: bool,
}

/// Whether `raise` is what an offer of `candidate` comes to in a cell that held
/// `raise.previous`: the candidate goes in where it is greater, and only then.
pub open spec fn judged(raise: Raise, candidate: int) -> bool {
    raise.improved == (candidate > raise.previous)
}

/// What an offer of `candidate` comes to in a cell that held `previous`.
pub fn judge(previous: u64, candidate: i64) -> (raise: Raise)
    ensures
        raise.previous == previous,
        judged(raise, candidate as int),
        raise.improved == (raised(previous, candidate as int) != previous),
{
    let improved = candidate > 0 && candidate as u64 > previous;
    Raise { previous, improved }
}

/// Leaves the greater of the cell's value and `candidate` in the cell, in one
/// atomic step, and returns what the cell held before.
fn fetch_max_relaxed(cell: &AtomicU64, candidate: u64) -> (previous: u64) {
    cell.fetch_max(candidate, Ordering::Relaxed)
}

/// Reads what the cell holds.
fn load_relaxed(cell: &AtomicU64) -> (held: u64) {
    cell.load(Ordering::Relaxed)
}

/// Offers `candidate` to `cell`. A candidate of zero or less cannot be greater
/// than what a cell holds and is not offered.
pub fn raise(cell: &AtomicU64, candidate: i64) -> (raise: Raise)
    ensures
        judged(raise, candidate as int),
{
    if candidate > 0 {
        judge(fetch_max_relaxed(cell, candidate as u64), candidate)
    } else {
        judge(load_relaxed(cell), candidate)
    }
}

/// What offering one loadout to the tracker came to, cell by cell.
#[derive(Clone, Copy, PartialEq, Eq, Structural, Debug)]
pub struct Outcome {
    pub health: Raise,
    pub volume: Raise,
    pub mana: Raise,
    pub healing: Raise,
    /// The offer of the volume to the bucket of the loadout's health.
    pub bucket: Raise,
}

impl Outcome {
    /// What the offer to the cell of `metric` came to.
    pub open spec fn of(self, metric: Metric) -> Raise {
        match metric {
            Metric::Health => self.health,
            Metric::Volume => self.volume,
            Metric::Mana => self.mana,
            Metric::Healing => self.healing,
        }
    }

    /// What the offer to the cell of `metric` came to.
    pub fn get(&self, metric: Metric) -> (raise: Raise)
        ensures
            raise == self.of(metric),
    {
        match metric {
            Metric::Health => self.health,
            Metric::Volume => self.volume,
            Metric::Mana => self.mana,
            Metric::Healing => self.healing,
        }
    }
}

impl Evaluation {
    /// The value of `metric`.
    pub open spec fn value_of(self, metric: Metric) -> int {
        match metric {
            Metric::Health => self.health as int,
            Metric::Volume => self.volume as int,
            Metric::Mana => self.mana as int,
            Metric::Healing => self.healing as int,
        }
    }

    /// The value of `metric`.
    pub fn value(&self, metric: Metric) -> (value: i64)
        ensures
            value == self.value_of(metric),
    {
        match metric {
            Metric::Health => self.health as i64,
            Metric::Volume => self.volume,
            Metric::Mana => self.mana as i64,
            Metric::Healing => self.healing as i64,
        }
    }
}

/// Whether `health` has a bucket in the table.
pub open spec fn in_table(health: int) -> bool {
    0 <= health < HEALTH_BOUND
}

/// Whether `outcome` is what offering `e` comes to, given what the cells held.
pub open spec fn offered(outcome: Outcome, e: Evaluation) -> bool {
    &&& forall|metric: Metric| judged(#[trigger] outcome.of(metric), e.value_of(metric))
    &&& judged(outcome.bucket, e.volume as int)
}

/// A health without a bucket in the table.
#[derive(Clone, Copy, PartialEq, Eq, Structural, Debug)]
pub struct OutOfTable {
    pub health: i32,
}

/// The running maxima of the four statistics, and of the volume for each health.
pub struct Statistics {
    max_mana: AtomicU64,
    max_health: AtomicU64,
    max_healing: AtomicU64,
    max_volume: AtomicU64,
    best_vol_for_health: Vec<AtomicU64>,
}

impl Statistics {
    /// Whether the table holds a bucket for each health below the bound.
    pub closed spec fn wf(&self) -> bool {
        self.best_vol_for_health@.len() == HEALTH_BOUND
    }

    /// A tracker with every cell at zero, the least value a cell can hold.
    pub fn new() -> (stats: Statistics)
        ensures
            stats.wf(),
    {
        let mut table: Vec<AtomicU64> = Vec::new();
        let mut i: usize = 0;
        while i < HEALTH_BOUND
            invariant
                i <= HEALTH_BOUND,
                table@.len() == i,
            decreases HEALTH_BOUND - i,
        {
            table.push(AtomicU64::new(0));
            i += 1;
        }
        Statistics {
            max_mana: AtomicU64::new(0),
            max_health: AtomicU64::new(0),
            max_healing: AtomicU64::new(0),
            max_volume: AtomicU64::new(0),
            best_vol_for_health: table,
        }
    }

    /// Offers the statistics of one loadout: each of the four to its cell, and
    /// the volume to the bucket of the health. A health without a bucket is
    /// refused before anything is offered.
    pub fn record(&self, e: &Evaluation) -> (result: Result<Outcome, OutOfTable>)
        requires
            self.wf(),
        ensures
            match result {
                Ok(outcome) => in_table(e.health as int) && offered(outcome, *e),
                Err(fault) => !in_table(e.health as int) && fault.health == e.health,
            },
    {
        if e.health < 0 || e.health as usize >= HEALTH_BOUND {
            return Err(OutOfTable { health: e.health });
        }
        let health = raise(&self.max_health, e.health as i64);
        let volume = raise(&self.max_volume, e.volume);
        let mana = raise(&self.max_mana, e.mana as i64);
        let healing = raise(&self.max_healing, e.healing as i64);
        let bucket = raise(&self.best_vol_for_health[e.health as usize], e.volume);
        let outcome = Outcome { health, volume, mana, healing, bucket };
        assert forall|metric: Metric| judged(#[trigger] outcome.of(metric), e.value_of(metric)) by {
            match metric {
                Metric::Health => {},
                Metric::Volume => {},
                Metric::Mana => {},
                Metric::Healing => {},
            }
        }
        Ok(outcome)
    }

    /// The best value of `metric` so far.
    pub fn best(&self, metric: Metric) -> (held: u64) {
        match metric {
            Metric::Health => load_relaxed(&self.max_health),
            Metric::Volume => load_relaxed(&self.max_volume),
            Metric::Mana => load_relaxed(&self.max_mana),
            Metric::Healing => load_relaxed(&self.max_healing),
        }
    }

    /// The table: for each health below the bound, in order, the best volume
    /// seen at that health, or zero where that health was never seen.
    pub fn table(&self) -> (rows: Vec<u64>)
        requires
            self.wf(),
        ensures
            rows@.len() == HEALTH_BOUND,
    {
        let mut rows: Vec<u64> = Vec::new();
        let mut health: usize = 0;
        while health < HEALTH_BOUND
            invariant
                health <= HEALTH_BOUND,
                self.wf(),
                rows@.len() == health,
            decreases HEALTH_BOUND - health,
        {
            rows.push(load_relaxed(&self.best_vol_for_health[health]));
            health += 1;
        }
        rows
    }
}

} // verus!
