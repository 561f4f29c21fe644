//! The odometer: one counter per slot, stepped through the loadouts in the
//! order of their ordinals.

use vstd::prelude::*;
use crate::codec::decode;
use crate::codec::decode_of;
use crate::codec::encode_of;
use crate::codec::is_loadout;
use crate::codec::lemma_decode_encode;
use crate::codec::lemma_decode_is_loadout;
use crate::codec::lemma_encode_bound;
use crate::codec::lemma_encode_decode;
use crate::codec::radix;
use crate::codec::total_of;

verus! {

/// A carry out of the first `k` slots: they stood at "none" and fall back to
/// their first item, slot `k` moves on by one, and the slots after it stay.
pub open spec fn carries(cards: Seq<usize>, before: Seq<usize>, after: Seq<usize>, k: int) -> bool {
    &&& is_loadout(cards, before)
    &&& after.len() == before.len()
    &&& 0 <= k < cards.len()
    &&& forall|j: int| 0 <= j < k ==> before[j] == cards[j] && after[j] == 0
    &&& before[k] < cards[k]
    &&& after[k] == before[k] + 1
    &&& forall|j: int| k < j < cards.len() ==> after[j] == before[j]
}

/// A carry leads from a loadout to the one with the next ordinal.
pub proof fn lemma_carry(cards: Seq<usize>, before: Seq<usize>, after: Seq<usize>, k: int)
    requires
        carries(cards, before, after, k),
    ensures
        is_loadout(cards, after),
        encode_of(cards, after) == encode_of(cards, before) + 1,
    decreases k,
{
    if k == 0 {
        assert(after.drop_first() =~= before.drop_first());
    } else {
        let r = radix(cards[0]) as int;
        let b = encode_of(cards.drop_first(), before.drop_first()) as int;
        let a = encode_of(cards.drop_first(), after.drop_first()) as int;
        assert(carries(cards.drop_first(), before.drop_first(), after.drop_first(), k - 1));
        lemma_carry(cards.drop_first(), before.drop_first(), after.drop_first(), k - 1);
        assert(r * a == r * b + r) by (nonlinear_arith)
            requires
                a == b + 1,
        ;
        assert forall|j: int| 0 <= j < cards.len() implies after[j] <= cards[j] by {
            if j > 0 {
                assert(after[j] == after.drop_first()[j - 1]);
                assert(cards[j] == cards.drop_first()[j - 1]);
            }
        }
    }
}

/// The loadout with "none" in every slot has the last ordinal.
pub proof fn lemma_last_loadout(cards: Seq<usize>, choices: Seq<usize>)
    requires
        choices == cards,
    ensures
        encode_of(cards, choices) + 1 == total_of(cards),
    decreases cards.len(),
{
    if cards.len() > 0 {
        let r = radix(cards[0]) as int;
        let e = encode_of(cards.drop_first(), choices.drop_first()) as int;
        let t = total_of(cards.drop_first()) as int;
        lemma_last_loadout(cards.drop_first(), choices.drop_first());
        assert(r * t == r * e + r) by (nonlinear_arith)
            requires
                t == e + 1,
        ;
    }
}

/// The loadout that the odometer steps to from `choices`: the first slot that
/// does not stand at "none" moves on by one, and the slots before it fall back
/// to their first item. From the last loadout it steps back to the first.
pub open spec fn step_of(cards: Seq<usize>, choices: Seq<usize>) -> Seq<usize>
    decreases cards.len(),
{
    if cards.len() == 0 || choices.len() != cards.len() {
        choices
    } else if choices[0] < cards[0] {
        choices.update(0, (choices[0] + 1) as usize)
    } else {
        seq![0usize] + step_of(cards.drop_first(), choices.drop_first())
    }
}

/// Where `steps` steps lead from `from`.
pub open spec fn walk_of(cards: Seq<usize>, from: Seq<usize>, steps: nat) -> Seq<usize>
    decreases steps,
{
    if steps == 0 {
        from
    } else {
        step_of(cards, walk_of(cards, from, (steps - 1) as nat))
    }
}

/// A step leads from a loadout to the one with the next ordinal.
pub proof fn lemma_step(cards: Seq<usize>, choices: Seq<usize>)
    requires
        is_loadout(cards, choices),
        encode_of(cards, choices) + 1 < total_of(cards),
    ensures
        is_loadout(cards, step_of(cards, choices)),
        encode_of(cards, step_of(cards, choices)) == encode_of(cards, choices) + 1,
        step_of(cards, choices) == decode_of(cards, encode_of(cards, choices) + 1),
    decreases cards.len(),
{
    let next = step_of(cards, choices);
    if cards.len() > 0 {
        let r = radix(cards[0]) as int;
        let e = encode_of(cards.drop_first(), choices.drop_first()) as int;
        let t = total_of(cards.drop_first()) as int;
        if choices[0] < cards[0] {
            assert(next.drop_first() =~= choices.drop_first());
        } else {
            assert(e + 1 < t) by (nonlinear_arith)
                requires
                    (r - 1) + r * e + 1 < r * t,
                    r >= 1,
            ;
            lemma_step(cards.drop_first(), choices.drop_first());
            let rest = step_of(cards.drop_first(), choices.drop_first());
            assert(next.drop_first() =~= rest);
            assert(r * (e + 1) == r * e + r) by (nonlinear_arith);
            assert forall|j: int| 0 <= j < cards.len() implies next[j] <= cards[j] by {
                if j > 0 {
                    assert(next[j] == rest[j - 1]);
                    assert(cards[j] == cards.drop_first()[j - 1]);
                }
            }
        }
    }
    lemma_decode_encode(cards, next);
}

/// A walk of `steps` steps from the loadout of ordinal `start` ends at the
/// loadout of ordinal `start + steps`: the odometer visits the ordinals one by
/// one, in rising order and without a gap.
pub proof fn lemma_walk(cards: Seq<usize>, start: nat, steps: nat)
    requires
        start + steps < total_of(cards),
    ensures
        walk_of(cards, decode_of(cards, start), steps) == decode_of(cards, start + steps),
        encode_of(cards, walk_of(cards, decode_of(cards, start), steps)) == start + steps,
    decreases steps,
{
    if steps == 0 {
        lemma_encode_decode(cards, start);
    } else {
        lemma_walk(cards, start, (steps - 1) as nat);
        let at = walk_of(cards, decode_of(cards, start), (steps - 1) as nat);
        lemma_decode_is_loadout(cards, (start + steps - 1) as nat);
        lemma_step(cards, at);
        lemma_encode_decode(cards, start + steps);
    }
}

/// A walk over all ordinals, from the first loadout, visits `total` loadouts
/// that differ from one another: no loadout comes twice.
pub proof fn lemma_walk_never_repeats(cards: Seq<usize>, a: nat, b: nat)
    requires
        a < b < total_of(cards),
    ensures
        walk_of(cards, decode_of(cards, 0), a) != walk_of(cards, decode_of(cards, 0), b),
        is_loadout(cards, walk_of(cards, decode_of(cards, 0), a)),
{
    lemma_walk(cards, 0, a);
    lemma_walk(cards, 0, b);
    lemma_decode_is_loadout(cards, a);
}

/// A walk over all ordinals misses no loadout: each is visited after as many
/// steps as its ordinal says.
pub proof fn lemma_walk_reaches(cards: Seq<usize>, choices: Seq<usize>)
    requires
        is_loadout(cards, choices),
    ensures
        encode_of(cards, choices) < total_of(cards),
        walk_of(cards, decode_of(cards, 0), encode_of(cards, choices)) == choices,
{
    lemma_encode_bound(cards, choices);
    lemma_walk(cards, 0, encode_of(cards, choices));
    lemma_decode_encode(cards, choices);
}

/// The counters of one worker.
pub struct Odometer {
    counters: Vec<usize>,
    exhausted: bool,
}

impl Odometer {
    /// The loadout that the odometer stands at.
    pub closed spec fn counters(&self) -> Seq<usize> {
        self.counters@
    }

    /// Whether the odometer has stepped past the last loadout.
    pub closed spec fn exhausted(&self) -> bool {
        self.exhausted
    }

    /// The ordinal of the loadout that the odometer stands at.
    pub open spec fn ordinal(&self, cards: Seq<usize>) -> nat {
        encode_of(cards, self.counters())
    }

    /// Whether the odometer fits the slots `cards`: it stands at a loadout over
    /// them, and at the first one once it is exhausted.
    pub open spec fn wf(&self, cards: Seq<usize>) -> bool {
        &&& is_loadout(cards, self.counters())
        &&& self.exhausted() ==> forall|j: int| 0 <= j < cards.len() ==> self.counters()[j] == 0
    }

    /// An odometer that stands at the loadout of `ordinal`, with its cursor on
    /// the first slot.
    pub fn start_at(cards: &Vec<usize>, ordinal: u64) -> (o: Odometer)
        ensures
            o.wf(cards@),
            !o.exhausted(),
            o.counters() == decode_of(cards@, ordinal as nat),
            ordinal < total_of(cards@) ==> o.ordinal(cards@) == ordinal,
    {
        proof {
            lemma_decode_is_loadout(cards@, ordinal as nat);
            if ordinal < total_of(cards@) {
                lemma_encode_decode(cards@, ordinal as nat);
            }
        }
        Odometer { counters: decode(cards, ordinal), exhausted: false }
    }

    /// The loadout that the odometer stands at.
    pub fn current(&self) -> (choices: &Vec<usize>)
        ensures
            choices@ == self.counters(),
    {
        &self.counters
    }

    /// Whether the odometer has stepped past the last loadout.
    pub fn is_exhausted(&self) -> (done: bool)
        ensures
            done == self.exhausted(),
    {
        self.exhausted
    }

    /// Steps to the loadout with the next ordinal. The cursor starts at the
    /// first slot. Where that slot can move on, it does. Where it stands at
    /// "none", it falls back to its first item and the cursor goes on, slot by
    /// slot, resetting each that stands at "none", to the first that can move
    /// on. Where there is none, the odometer is exhausted, and stays so.
    pub fn advance(&mut self, cards: &Vec<usize>) -> (moved: bool)
        requires
            old(self).wf(cards@),
        ensures
            final(self).wf(cards@),
            moved == (!old(self).exhausted() && old(self).ordinal(cards@) + 1 < total_of(cards@)),
            moved ==> !final(self).exhausted() && final(self).ordinal(cards@) == old(self).ordinal(
                cards@,
            ) + 1 && final(self).counters() == decode_of(
                cards@,
                old(self).ordinal(cards@) + 1,
            ) && final(self).counters() == step_of(cards@, old(self).counters()),
            !moved ==> final(self).exhausted(),
    {
        let ghost before = self.counters@;
        proof {
            lemma_encode_bound(cards@, before);
        }
        if self.exhausted {
            return false;
        }
        let n = self.counters.len();
        let mut pointer: usize = 0;
        while pointer < n
            invariant
                pointer <= n,
                n == cards@.len(),
                is_loadout(cards@, before),
                before == old(self).counters@,
                !old(self).exhausted,
                self.counters@.len() == n,
                !self.exhausted,
                forall|j: int| 0 <= j < pointer ==> before[j] == cards@[j] && self.counters@[j] == 0,
                forall|j: int| pointer <= j < n ==> self.counters@[j] == before[j],
            decreases n - pointer,
        {
            let counter = self.counters[pointer];
            assert(counter == before[pointer as int] && before[pointer as int] <= cards@[pointer as int]);
            if counter < cards[pointer] {
                self.counters.set(pointer, counter + 1);
                proof {
                    assert(carries(cards@, before, self.counters@, pointer as int));
                    lemma_carry(cards@, before, self.counters@, pointer as int);
                    lemma_decode_encode(cards@, self.counters@);
                    lemma_encode_bound(cards@, self.counters@);
                    lemma_step(cards@, before);
                }
                return true;
            }
            self.counters.set(pointer, 0);
            pointer += 1;
        }
        self.exhausted = true;
        proof {
            assert(before =~= cards@);
            lemma_last_loadout(cards@, before);
        }
        false
    }
}

} // verus!
