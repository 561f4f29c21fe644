//! The worker: it walks its range of ordinals, evaluates every loadout in it,
//! and offers each to the tracker. What it hands back is what the tracker let
//! in, and the peaks of its own range, which depend on the range alone.

use vstd::prelude::*;
use crate::character::cards_of;
use crate::character::dressed;
use crate::character::evaluates;
use crate::character::health_at;
use crate::character::healing_at;
use crate::character::mana_at;
use crate::character::volume_at;
use crate::character::Character;
use crate::character::Evaluation;
use crate::codec::decode_of;
use crate::codec::total_of;
use crate::item::Item;
use crate::odometer::Odometer;
use crate::partition::chunk_len_of;
use crate::partition::chunk_start_of;
use crate::partition::lemma_chunks_contiguous;
use crate::partition::lemma_chunks_reach_total;
use crate::partition::partition;
use crate::tracker::in_table;
use crate::tracker::Metric;
use crate::tracker::Outcome;
use crate::tracker::Raise;
use crate::tracker::Statistics;

verus! {

/// A loadout that raised one of the four running maxima.
#[derive(Clone, Debug)]
pub struct Improvement {
    /// The statistic whose maximum it raised.
    pub metric: Metric,
    /// The ordinal of the loadout.
    pub ordinal: u64,
    /// What the maximum was before.
    pub previous: u64,
    /// All four statistics of the loadout.
    pub evaluation: Evaluation,
    /// The loadout: one choice for each searched slot.
    pub choices: Vec<usize>,
}

/// The greatest value of each statistic over a range of loadouts.
#[derive(Clone, Copy, PartialEq, Eq, Structural, Debug)]
pub struct Peaks {
    pub health: i64,
    pub volume: i64,
    pub mana: i64,
    pub healing: i64,
}

/// What a walk over a range of loadouts came to.
#[derive(Clone, Debug)]
pub struct Report {
    /// The improvements of the four running maxima, in the order in which they
    /// arose.
    pub events: Vec<Improvement>,
    /// The greatest value of each statistic over the range, whatever the tracker
    /// held. `None` for a range without a loadout.
    pub peaks: Option<Peaks>,
}

/// A loadout whose health has no bucket in the table. The search cannot go on.
#[derive(Clone, Copy, PartialEq, Eq, Structural, Debug)]
pub struct Fault {
    pub ordinal: u64,
    pub health: i32,
}

/// What is worn under the loadout of `ordinal`.
pub open spec fn loadout_at(catalog: Seq<Seq<Item>>, ordinal: nat) -> Seq<Option<Item>> {
    dressed(catalog, decode_of(cards_of(catalog), ordinal))
}

/// The value of `metric` under the loadout of `ordinal`.
pub open spec fn value_at(catalog: Seq<Seq<Item>>, ordinal: nat, metric: Metric) -> int {
    match metric {
        Metric::Health => health_at(loadout_at(catalog, ordinal)),
        Metric::Volume => volume_at(loadout_at(catalog, ordinal)),
        Metric::Mana => mana_at(loadout_at(catalog, ordinal)),
        Metric::Healing => healing_at(loadout_at(catalog, ordinal)),
    }
}

/// Whether `value` is the greatest value of `metric` over the loadouts with an
/// ordinal in `start .. end`: none of them has more, and one of them has it.
pub open spec fn is_peak(
    value: int,
    catalog: Seq<Seq<Item>>,
    metric: Metric,
    start: nat,
    end: nat,
) -> bool {
    &&& forall|k: nat| start <= k < end ==> #[trigger] value_at(catalog, k, metric) <= value
    &&& exists|k: nat| start <= k < end && #[trigger] value_at(catalog, k, metric) == value
}

/// Whether `peaks` holds the greatest value of each statistic over the loadouts
/// with an ordinal in `start .. end`.
pub open spec fn peaks_over(peaks: Peaks, catalog: Seq<Seq<Item>>, start: nat, end: nat) -> bool {
    forall|metric: Metric| is_peak(#[trigger] peaks.of(metric), catalog, metric, start, end)
}

/// Whether `peaks` is what a walk over `start .. end` finds: nothing in an
/// empty range, and else the greatest value of each statistic.
pub open spec fn found(peaks: Option<Peaks>, catalog: Seq<Seq<Item>>, start: nat, end: nat) -> bool {
    match peaks {
        None => start >= end,
        Some(p) => start < end && peaks_over(p, catalog, start, end),
    }
}

/// The greatest value over one loadout is its own.
pub proof fn lemma_peak_of_one(catalog: Seq<Seq<Item>>, metric: Metric, ordinal: nat)
    ensures
        is_peak(value_at(catalog, ordinal, metric), catalog, metric, ordinal, ordinal + 1),
{
}

/// The greatest value over two ranges, one after the other, is the greater of
/// their greatest values.
pub proof fn lemma_peak_of_two(
    catalog: Seq<Seq<Item>>,
    metric: Metric,
    start: nat,
    mid: nat,
    end: nat,
    a: int,
    b: int,
)
    requires
        is_peak(a, catalog, metric, start, mid),
        is_peak(b, catalog, metric, mid, end),
    ensures
        is_peak(if a >= b { a } else { b }, catalog, metric, start, end),
{
    let i = choose|k: nat| start <= k < mid && #[trigger] value_at(catalog, k, metric) == a;
    let j = choose|k: nat| mid <= k < end && #[trigger] value_at(catalog, k, metric) == b;
    if a >= b {
        assert(start <= i < end && value_at(catalog, i, metric) == a);
    } else {
        assert(start <= j < end && value_at(catalog, j, metric) == b);
    }
}

impl Peaks {
    /// The greatest value of `metric`.
    pub open spec fn of(self, metric: Metric) -> int {
        match metric {
            Metric::Health => self.health as int,
            Metric::Volume => self.volume as int,
            Metric::Mana => self.mana as int,
            Metric::Healing => self.healing as int,
        }
    }

    /// The greatest value of `metric`.
    pub fn get(&self, metric: Metric) -> (value: i64)
        ensures
            value == self.of(metric),
    {
        match metric {
            Metric::Health => self.health,
            Metric::Volume => self.volume,
            Metric::Mana => self.mana,
            Metric::Healing => self.healing,
        }
    }

    /// The peaks over the one loadout that `e` evaluates.
    pub fn at(e: &Evaluation) -> (peaks: Peaks)
        ensures
            forall|metric: Metric| #[trigger] peaks.of(metric) == e.value_of(metric),
    {
        let peaks = Peaks {
            health: e.value(Metric::Health),
            volume: e.value(Metric::Volume),
            mana: e.value(Metric::Mana),
            healing: e.value(Metric::Healing),
        };
        assert forall|metric: Metric| #[trigger] peaks.of(metric) == e.value_of(metric) by {
            match metric {
                Metric::Health => {},
                Metric::Volume => {},
                Metric::Mana => {},
                Metric::Healing => {},
            }
        }
        peaks
    }

    /// The peaks over two ranges: of each statistic the greater of the two.
    pub fn join(self, other: Peaks) -> (peaks: Peaks)
        ensures
            forall|metric: Metric|
                #[trigger] peaks.of(metric) == if self.of(metric) >= other.of(metric) {
                    self.of(metric)
                } else {
                    other.of(metric)
                },
    {
        let peaks = Peaks {
            health: if self.health >= other.health {
                self.health
            } else {
                other.health
            },
            volume: if self.volume >= other.volume {
                self.volume
            } else {
                other.volume
            },
            mana: if self.mana >= other.mana {
                self.mana
            } else {
                other.mana
            },
            healing: if self.healing >= other.healing {
                self.healing
            } else {
                other.healing
            },
        };
        assert forall|metric: Metric|
            #[trigger] peaks.of(metric) == if self.of(metric) >= other.of(metric) {
                self.of(metric)
            } else {
                other.of(metric)
            } by {
            match metric {
                Metric::Health => {},
                Metric::Volume => {},
                Metric::Mana => {},
                Metric::Healing => {},
            }
        }
        peaks
    }
}

/// The peaks over two ranges, one after the other, either of which may be
/// empty.
fn merge(
    first: Option<Peaks>,
    second: Option<Peaks>,
    Ghost(catalog): Ghost<Seq<Seq<Item>>>,
    Ghost(start): Ghost<nat>,
    Ghost(mid): Ghost<nat>,
    Ghost(end): Ghost<nat>,
) -> (both: Option<Peaks>)
    requires
        start <= mid <= end,
        found(first, catalog, start, mid),
        found(second, catalog, mid, end),
    ensures
        found(both, catalog, start, end),
{
    match (first, second) {
        (None, _) => second,
        (_, None) => first,
        (Some(a), Some(b)) => {
            let both = a.join(b);
            assert forall|metric: Metric|
                is_peak(#[trigger] both.of(metric), catalog, metric, start, end) by {
                assert(is_peak(a.of(metric), catalog, metric, start, mid));
                assert(is_peak(b.of(metric), catalog, metric, mid, end));
                lemma_peak_of_two(catalog, metric, start, mid, end, a.of(metric), b.of(metric));
            }
            Some(both)
        },
    }
}

impl Metric {
    /// The metric's place in the order in which a loadout is offered.
    pub open spec fn rank(self) -> int {
        match self {
            Metric::Health => 0,
            Metric::Volume => 1,
            Metric::Mana => 2,
            Metric::Healing => 3,
        }
    }
}

impl Improvement {
    /// Whether the event tells the truth about a loadout with an ordinal in
    /// `start .. end`: these are its choices and its statistics, and the
    /// statistic named is greater than the maximum was.
    pub open spec fn sound(self, catalog: Seq<Seq<Item>>, start: nat, end: nat) -> bool {
        &&& start <= self.ordinal < end
        &&& self.choices@ == decode_of(cards_of(catalog), self.ordinal as nat)
        &&& evaluates(self.evaluation, loadout_at(catalog, self.ordinal as nat))
        &&& self.previous < self.evaluation.value_of(self.metric)
    }

    /// The event's place in time: by ordinal first, by metric within a loadout.
    pub open spec fn key(self) -> int {
        self.ordinal * 4 + self.metric.rank()
    }
}

/// Whether the events come in the order in which they arose.
pub open spec fn in_order(events: Seq<Improvement>) -> bool {
    forall|i: int, j: int|
        0 <= i < j < events.len() ==> (#[trigger] events[i]).key() < (#[trigger] events[j]).key()
}

/// Whether every event is sound, and all arose before `bound`.
pub open spec fn all_sound(
    events: Seq<Improvement>,
    catalog: Seq<Seq<Item>>,
    start: nat,
    end: nat,
    bound: int,
) -> bool {
    forall|i: int|
        0 <= i < events.len() ==> (#[trigger] events[i]).sound(catalog, start, end)
            && events[i].key() < bound
}

/// Whether every loadout with an ordinal in `start .. end` has a health with a
/// bucket in the table.
pub open spec fn range_in_table(catalog: Seq<Seq<Item>>, start: nat, end: nat) -> bool {
    forall|k: nat| start <= k < end ==> in_table(#[trigger] health_at(loadout_at(catalog, k)))
}

/// Adds the event of `metric` to `events` where the offer raised the maximum.
fn note(
    events: &mut Vec<Improvement>,
    metric: Metric,
    outcome: &Outcome,
    ordinal: u64,
    evaluation: &Evaluation,
    choices: &Vec<usize>,
    Ghost(catalog): Ghost<Seq<Seq<Item>>>,
    Ghost(start): Ghost<nat>,
    Ghost(end): Ghost<nat>,
)
    requires
        in_order(old(events)@),
        all_sound(old(events)@, catalog, start, end, ordinal * 4 + metric.rank()),
        start <= ordinal < end,
        choices@ == decode_of(cards_of(catalog), ordinal as nat),
        evaluates(*evaluation, loadout_at(catalog, ordinal as nat)),
        crate::tracker::offered(*outcome, *evaluation),
    ensures
        in_order(final(events)@),
        all_sound(final(events)@, catalog, start, end, ordinal * 4 + metric.rank() + 1),
        !outcome.of(metric).improved ==> final(events)@ == old(events)@,
        outcome.of(metric).improved ==> final(events)@.len() == old(events)@.len() + 1
            && final(events)@.drop_last() == old(events)@ && reports(
            final(events)@.last(),
            metric,
            ordinal,
            outcome.of(metric).previous,
            *evaluation,
            choices@,
        ),
{
    let raise = outcome.get(metric);
    if raise.improved {
        let event = Improvement {
            metric,
            ordinal,
            previous: raise.previous,
            evaluation: *evaluation,
            choices: choices.clone(),
        };
        assert(event.choices@ =~= choices@);
        assert(crate::tracker::judged(outcome.of(metric), evaluation.value_of(metric)));
        events.push(event);
        assert(events@.drop_last() =~= old(events)@);
    }
}

/// Whether `event` is the record of an offer of the loadout of `ordinal` that
/// raised the maximum of `metric` from `previous`: it names the metric and the
/// ordinal, and holds the value that the cell held before, the statistics of the
/// loadout and its choices.
pub open spec fn reports(
    event: Improvement,
    metric: Metric,
    ordinal: u64,
    previous: u64,
    evaluation: Evaluation,
    choices: Seq<usize>,
) -> bool {
    &&& event.metric == metric
    &&& event.ordinal == ordinal
    &&& event.previous == previous
    &&& event.evaluation == evaluation
    &&& event.choices@ == choices
}

impl Character {
    /// Visits the `iters_to_run` loadouts from ordinal `start` on, each once and
    /// in the order of their ordinals: puts each on, evaluates it and offers it
    /// to `stats`. The counters stand at the loadout of the running ordinal
    /// throughout. Returns the improvements of the four running maxima, in the
    /// order in which they arose, and the peaks of the range; or the first
    /// loadout whose health has no bucket in the table, at which the walk stops.
    ///
    /// An improvement holds the loadout whose value went into the cell and what
    /// the cell held before. Another worker may have raised the cell further
    /// since.
    pub fn worker(&mut self, start: u64, iters_to_run: u64, stats: &Statistics) -> (result: Result<
        Report,
        Fault,
    >)
        requires
            old(self).wf(),
            stats.wf(),
            start + iters_to_run <= total_of(old(self).cards()),
        ensures
            final(self).wf(),
            final(self).catalog() == old(self).catalog(),
            match result {
                Ok(report) => {
                    &&& range_in_table(
                        old(self).catalog(),
                        start as nat,
                        (start + iters_to_run) as nat,
                    )
                    &&& found(
                        report.peaks,
                        old(self).catalog(),
                        start as nat,
                        (start + iters_to_run) as nat,
                    )
                    &&& in_order(report.events@)
                    &&& forall|i: int|
                        0 <= i < report.events@.len() ==> (#[trigger] report.events@[i]).sound(
                            old(self).catalog(),
                            start as nat,
                            (start + iters_to_run) as nat,
                        )
                    &&& iters_to_run > 0 ==> final(self).equipped() == loadout_at(
                        old(self).catalog(),
                        (start + iters_to_run - 1) as nat,
                    )
                    &&& iters_to_run == 0 ==> final(self).equipped() == old(self).equipped()
                },
                Err(fault) => {
                    &&& start <= fault.ordinal < start + iters_to_run
                    &&& fault.health == health_at(
                        loadout_at(old(self).catalog(), fault.ordinal as nat),
                    )
                    &&& !in_table(fault.health as int)
                    &&& range_in_table(old(self).catalog(), start as nat, fault.ordinal as nat)
                },
            },
    {
        let mut events: Vec<Improvement> = Vec::new();
        let mut peaks: Option<Peaks> = None;
        let ghost catalog = self.catalog();
        let ghost end = (start + iters_to_run) as nat;
        proof {
            self.lemma_wf();
        }
        let cards = self.cardinalities().clone();
        assert(cards@ =~= self.cards());
        let mut odometer = Odometer::start_at(&cards, start);
        let mut done: u64 = 0;
        while done < iters_to_run
            invariant
                done <= iters_to_run,
                self.wf(),
                stats.wf(),
                self.catalog() == catalog,
                catalog == old(self).catalog(),
                cards@ == cards_of(catalog),
                end == start + iters_to_run,
                end <= total_of(cards@),
                total_of(cards@) <= u64::MAX,
                odometer.wf(cards@),
                done < iters_to_run ==> !odometer.exhausted() && odometer.counters() == decode_of(
                    cards@,
                    (start + done) as nat,
                ) && odometer.ordinal(cards@) == start + done,
                in_order(events@),
                all_sound(events@, catalog, start as nat, end, (start + done) * 4),
                range_in_table(catalog, start as nat, (start + done) as nat),
                found(peaks, catalog, start as nat, (start + done) as nat),
                done > 0 ==> self.equipped() == loadout_at(catalog, (start + done - 1) as nat),
                done == 0 ==> self.equipped() == old(self).equipped(),
            decreases iters_to_run - done,
        {
            let ordinal = start + done;
            let choices = odometer.current();
            proof {
                crate::codec::lemma_decode_is_loadout(cards@, ordinal as nat);
            }
            self.dress(choices);
            let e = self.evaluate();
            match stats.record(&e) {
                Err(refused) => {
                    return Err(Fault { ordinal, health: refused.health });
                },
                Ok(outcome) => {
                    note(
                        &mut events,
                        Metric::Health,
                        &outcome,
                        ordinal,
                        &e,
                        choices,
                        Ghost(catalog),
                        Ghost(start as nat),
                        Ghost(end),
                    );
                    note(
                        &mut events,
                        Metric::Volume,
                        &outcome,
                        ordinal,
                        &e,
                        choices,
                        Ghost(catalog),
                        Ghost(start as nat),
                        Ghost(end),
                    );
                    note(
                        &mut events,
                        Metric::Mana,
                        &outcome,
                        ordinal,
                        &e,
                        choices,
                        Ghost(catalog),
                        Ghost(start as nat),
                        Ghost(end),
                    );
                    note(
                        &mut events,
                        Metric::Healing,
                        &outcome,
                        ordinal,
                        &e,
                        choices,
                        Ghost(catalog),
                        Ghost(start as nat),
                        Ghost(end),
                    );
                },
            }
            let here = Peaks::at(&e);
            proof {
                assert forall|metric: Metric|
                    is_peak(
                        #[trigger] here.of(metric),
                        catalog,
                        metric,
                        ordinal as nat,
                        (ordinal + 1) as nat,
                    ) by {
                    assert(here.of(metric) == value_at(catalog, ordinal as nat, metric));
                    lemma_peak_of_one(catalog, metric, ordinal as nat);
                }
            }
            peaks = merge(
                peaks,
                Some(here),
                Ghost(catalog),
                Ghost(start as nat),
                Ghost(ordinal as nat),
                Ghost((ordinal + 1) as nat),
            );
            done += 1;
            if done < iters_to_run {
                let moved = odometer.advance(&cards);
                assert(moved);
            }
        }
        Ok(Report { events, peaks })
    }

    /// Searches all loadouts: splits the ordinals over `workers` ranges and
    /// walks one range after the other, each as a worker does. Returns the
    /// improvements in the order in which they arose, and the peaks over all
    /// loadouts; or the first loadout whose health has no bucket in the table.
    pub fn brute_force(&mut self, workers: usize, stats: &Statistics) -> (result: Result<
        Report,
        Fault,
    >)
        requires
            old(self).wf(),
            stats.wf(),
            workers > 0,
        ensures
            final(self).wf(),
            final(self).catalog() == old(self).catalog(),
            match result {
                Ok(report) => {
                    &&& range_in_table(old(self).catalog(), 0, total_of(old(self).cards()))
                    &&& report.peaks matches Some(peaks) && peaks_over(
                        peaks,
                        old(self).catalog(),
                        0,
                        total_of(old(self).cards()),
                    )
                    &&& in_order(report.events@)
                    &&& forall|i: int|
                        0 <= i < report.events@.len() ==> (#[trigger] report.events@[i]).sound(
                            old(self).catalog(),
                            0,
                            total_of(old(self).cards()),
                        )
                },
                Err(fault) => {
                    &&& fault.ordinal < total_of(old(self).cards())
                    &&& fault.health == health_at(
                        loadout_at(old(self).catalog(), fault.ordinal as nat),
                    )
                    &&& !in_table(fault.health as int)
                    &&& range_in_table(old(self).catalog(), 0, fault.ordinal as nat)
                },
            },
    {
        let total = self.total_combos();
        let chunks = partition(total, workers);
        let ghost catalog = self.catalog();
        let mut events: Vec<Improvement> = Vec::new();
        let mut peaks: Option<Peaks> = None;
        let mut w: usize = 0;
        proof {
            lemma_chunks_contiguous(total as nat, workers as nat, 0);
        }
        while w < workers
            invariant
                w <= workers,
                workers > 0,
                self.wf(),
                stats.wf(),
                self.catalog() == catalog,
                catalog == old(self).catalog(),
                total == total_of(cards_of(catalog)),
                chunks@.len() == workers,
                forall|v: int|
                    0 <= v < workers ==> (#[trigger] chunks@[v]).start == chunk_start_of(
                        total as nat,
                        workers as nat,
                        v as nat,
                    ) && chunks@[v].len == chunk_len_of(total as nat, workers as nat, v as nat),
                range_in_table(catalog, 0, chunk_start_of(total as nat, workers as nat, w as nat)),
                found(peaks, catalog, 0, chunk_start_of(total as nat, workers as nat, w as nat)),
                in_order(events@),
                all_sound(
                    events@,
                    catalog,
                    0,
                    total as nat,
                    (chunk_start_of(total as nat, workers as nat, w as nat) * 4) as int,
                ),
            decreases workers - w,
        {
            let chunk = chunks[w];
            proof {
                lemma_chunks_contiguous(total as nat, workers as nat, w as nat);
            }
            match self.worker(chunk.start, chunk.len, stats) {
                Err(fault) => {
                    return Err(fault);
                },
                Ok(report) => {
                    let mut more = report.events;
                    let ghost before = events@;
                    let ghost added = more@;
                    events.append(&mut more);
                    peaks = merge(
                        peaks,
                        report.peaks,
                        Ghost(catalog),
                        Ghost(0),
                        Ghost(chunk.start as nat),
                        Ghost((chunk.start + chunk.len) as nat),
                    );
                    assert forall|i: int| 0 <= i < events@.len() implies (#[trigger] events@[i]).sound(
                        catalog,
                        0,
                        total as nat,
                    ) && events@[i].key() < (chunk.start + chunk.len) * 4 by {
                        if i < before.len() {
                            assert(events@[i] == before[i]);
                        } else {
                            assert(events@[i] == added[i - before.len()]);
                        }
                    }
                    assert forall|i: int, j: int| 0 <= i < j < events@.len() implies (
                    #[trigger] events@[i]).key() < (#[trigger] events@[j]).key() by {
                        if j < before.len() {
                            assert(events@[i] == before[i] && events@[j] == before[j]);
                        } else if i < before.len() {
                            assert(events@[i] == before[i]);
                            assert(events@[j] == added[j - before.len()]);
                        } else {
                            assert(events@[i] == added[i - before.len()]);
                            assert(events@[j] == added[j - before.len()]);
                        }
                    }
                },
            }
            w += 1;
        }
        proof {
            lemma_chunks_reach_total(total as nat, workers as nat);
            crate::codec::lemma_total_positive(cards_of(catalog));
        }
        Ok(Report { events, peaks })
    }
}

} // verus!
