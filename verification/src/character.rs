//! A character: the catalog of items for each slot, and what is worn right now.

use vstd::prelude::*;
use crate::codec::total;
use crate::codec::total_of;
use crate::formulas::health_from_stamina;
use crate::formulas::health_of;
use crate::formulas::mana_from;
use crate::formulas::mana_of;
use crate::formulas::volume_from;
use crate::formulas::volume_of;
use crate::formulas::BASE_INTELLECT;
use crate::formulas::BASE_MANA;
use crate::formulas::BASE_STAMINA;
use crate::item::all_bounded;
use crate::item::brute_force_slots;
use crate::item::lemma_searched_slots_distinct;
use crate::item::pick;
use crate::item::searched_slots;
use crate::item::stat_sum;
use crate::item::Item;
use crate::item::Slot;
use crate::item::Stat;
use crate::item::SEARCHED_SLOTS;
use crate::item::SLOT_COUNT;
use crate::item::STAT_LIMIT;

verus! {

/// The derived statistics of one loadout.
#[derive(Clone, Copy, PartialEq, Eq, Structural, Debug)]
pub struct Evaluation {
    pub health: i32,
    pub mana: i32,
    pub healing: i32,
    pub volume: i64,
}

/// Why a database cannot serve as a catalog.
#[derive(Clone, Copy, PartialEq, Eq, Structural, Debug)]
pub enum CatalogError {
    /// It does not hold one list for each slot.
    WrongSlotCount,
    /// One of its items is not bounded.
    StatOutOfRange,
    /// The number of its loadouts does not fit in 64 bits.
    TooManyLoadouts,
}

/// Health with the items in `slots` worn.
pub open spec fn health_at(slots: Seq<Option<Item>>) -> int {
    health_of(BASE_STAMINA + stat_sum(slots, Stat::Stamina))
}

/// Mana with the items in `slots` worn.
pub open spec fn mana_at(slots: Seq<Option<Item>>) -> int {
    mana_of(BASE_INTELLECT + stat_sum(slots, Stat::Intellect), BASE_MANA + stat_sum(slots, Stat::Mana))
}

/// Healing power with the items in `slots` worn.
pub open spec fn healing_at(slots: Seq<Option<Item>>) -> int {
    stat_sum(slots, Stat::Healing)
}

/// Healing volume with the items in `slots` worn.
pub open spec fn volume_at(slots: Seq<Option<Item>>) -> int {
    volume_of(mana_at(slots), healing_at(slots))
}

/// Whether `e` holds the derived statistics of `slots`.
pub open spec fn evaluates(e: Evaluation, slots: Seq<Option<Item>>) -> bool {
    &&& e.health == health_at(slots)
    &&& e.mana == mana_at(slots)
    &&& e.healing == healing_at(slots)
    &&& e.volume == volume_at(slots)
}

/// Nothing worn in any slot.
pub open spec fn empty_slots() -> Seq<Option<Item>> {
    Seq::new(SLOT_COUNT as nat, |s: int| None)
}

/// The lists of a database, slot by slot.
pub open spec fn lists_of(database: Seq<Vec<Item>>) -> Seq<Seq<Item>> {
    Seq::new(database.len(), |s: int| database[s]@)
}

/// The cardinalities of the searched slots, in the order of their digits.
pub open spec fn cards_of(catalog: Seq<Seq<Item>>) -> Seq<usize> {
    Seq::new(SEARCHED_SLOTS as nat, |p: int| catalog[searched_slots()[p].ord()].len() as usize)
}

/// Whether every item of the catalog is bounded.
pub open spec fn items_bounded(catalog: Seq<Seq<Item>>) -> bool {
    forall|s: int, i: int|
        0 <= s < catalog.len() && 0 <= i < catalog[s].len() ==> (#[trigger] catalog[s][i]).bounded()
}

/// Whether `catalog` can be searched: a list for each slot, bounded items, and
/// a number of loadouts that fits in 64 bits.
pub open spec fn catalog_ok(catalog: Seq<Seq<Item>>) -> bool {
    &&& catalog.len() == SLOT_COUNT
    &&& items_bounded(catalog)
    &&& total_of(cards_of(catalog)) <= u64::MAX
}

/// What is worn once the first `n` searched slots have taken their choices: each
/// of them holds the chosen item of its list, or nothing where the choice is
/// "none", and every other slot is empty.
pub open spec fn dressed_upto(catalog: Seq<Seq<Item>>, choices: Seq<usize>, n: int) -> Seq<
    Option<Item>,
>
    decreases n,
{
    if n <= 0 {
        empty_slots()
    } else {
        let s = searched_slots()[n - 1].ord();
        dressed_upto(catalog, choices, n - 1).update(s, pick(catalog[s], choices[n - 1]))
    }
}

/// What is worn under the loadout `choices`.
pub open spec fn dressed(catalog: Seq<Seq<Item>>, choices: Seq<usize>) -> Seq<Option<Item>> {
    dressed_upto(catalog, choices, SEARCHED_SLOTS as int)
}

/// Each searched slot wears what its own choice picks from its own list, and
/// the slots that are not searched wear nothing.
pub proof fn lemma_dressed_at(catalog: Seq<Seq<Item>>, choices: Seq<usize>, s: int)
    requires
        0 <= s < SLOT_COUNT,
    ensures
        dressed(catalog, choices).len() == SLOT_COUNT,
        forall|p: int|
            0 <= p < SEARCHED_SLOTS && searched_slots()[p].ord() == s ==> dressed(
                catalog,
                choices,
            )[s] == pick(catalog[s], choices[p]),
        (forall|p: int| 0 <= p < SEARCHED_SLOTS ==> searched_slots()[p].ord() != s) ==> dressed(
            catalog,
            choices,
        )[s] is None,
{
    lemma_searched_slots_distinct();
    lemma_dressed_upto_at(catalog, choices, SEARCHED_SLOTS as int, s);
}

/// What slot `s` wears once the first `n` searched slots have taken their
/// choices.
proof fn lemma_dressed_upto_at(catalog: Seq<Seq<Item>>, choices: Seq<usize>, n: int, s: int)
    requires
        0 <= s < SLOT_COUNT,
        0 <= n <= SEARCHED_SLOTS,
    ensures
        dressed_upto(catalog, choices, n).len() == SLOT_COUNT,
        forall|p: int|
            0 <= p < n && searched_slots()[p].ord() == s ==> dressed_upto(catalog, choices, n)[s]
                == pick(catalog[s], choices[p]),
        (forall|p: int| 0 <= p < n ==> searched_slots()[p].ord() != s) ==> dressed_upto(
            catalog,
            choices,
            n,
        )[s] is None,
    decreases n,
{
    lemma_searched_slots_distinct();
    if n > 0 {
        lemma_dressed_upto_at(catalog, choices, n - 1, s);
        let last = searched_slots()[n - 1].ord();
        assert(0 <= last < SLOT_COUNT);
    }
}

/// Whatever the choices, what they put on comes from the catalog.
pub proof fn lemma_dressed_bounded(catalog: Seq<Seq<Item>>, choices: Seq<usize>, n: int)
    requires
        catalog.len() == SLOT_COUNT,
        items_bounded(catalog),
        n <= SEARCHED_SLOTS,
    ensures
        dressed_upto(catalog, choices, n).len() == SLOT_COUNT,
        all_bounded(dressed_upto(catalog, choices, n)),
    decreases n,
{
    if n > 0 {
        lemma_dressed_bounded(catalog, choices, n - 1);
        let s = searched_slots()[n - 1].ord();
        let worn = pick(catalog[s], choices[n - 1]);
        if let Some(item) = worn {
            assert(item == catalog[s][choices[n - 1] as int]);
        }
    }
}

/// A character: what is worn in each slot, and the items on offer for each.
pub struct Character {
    slots: Vec<Option<Item>>,
    database: Vec<Vec<Item>>,
    cards: Vec<usize>,
    total: u64,
}

impl Character {
    /// What is worn, slot by slot.
    pub closed spec fn equipped(&self) -> Seq<Option<Item>> {
        self.slots@
    }

    /// The items on offer, slot by slot.
    pub closed spec fn catalog(&self) -> Seq<Seq<Item>> {
        lists_of(self.database@)
    }

    /// The cardinalities of the searched slots.
    pub open spec fn cards(&self) -> Seq<usize> {
        cards_of(self.catalog())
    }

    /// Whether the character can be searched: its catalog can, it wears bounded
    /// items in as many slots as there are, and what it keeps of the catalog's
    /// cardinalities and of their product is right.
    pub closed spec fn wf(&self) -> bool {
        &&& catalog_ok(self.catalog())
        &&& self.slots@.len() == SLOT_COUNT
        &&& all_bounded(self.slots@)
        &&& self.cards@ == cards_of(self.catalog())
        &&& self.total == total_of(self.cards@)
    }

    /// What a well-formed character is known by: a catalog that can be
    /// searched, and bounded items in as many slots as there are.
    pub proof fn lemma_wf(&self)
        requires
            self.wf(),
        ensures
            catalog_ok(self.catalog()),
            self.equipped().len() == SLOT_COUNT,
            all_bounded(self.equipped()),
    {
    }

    /// A character over `database`, with nothing worn. A database is refused
    /// for the first of these that holds: it has not one list for each slot; one
    /// of its items is not bounded; its loadouts are too many to number.
    pub fn from_database(database: Vec<Vec<Item>>) -> (made: Result<Character, CatalogError>)
        ensures
            match made {
                Ok(c) => catalog_ok(lists_of(database@)) && c.wf() && c.catalog() == lists_of(
                    database@,
                ) && c.equipped() == empty_slots(),
                Err(CatalogError::WrongSlotCount) => database@.len() != SLOT_COUNT,
                Err(CatalogError::StatOutOfRange) => database@.len() == SLOT_COUNT
                    && !items_bounded(lists_of(database@)),
                Err(CatalogError::TooManyLoadouts) => database@.len() == SLOT_COUNT
                    && items_bounded(lists_of(database@)) && total_of(
                    cards_of(lists_of(database@)),
                ) > u64::MAX,
            },
    {
        if database.len() != SLOT_COUNT {
            return Err(CatalogError::WrongSlotCount);
        }
        let ghost catalog = lists_of(database@);
        let mut s: usize = 0;
        while s < SLOT_COUNT
            invariant
                s <= SLOT_COUNT,
                database@.len() == SLOT_COUNT,
                catalog == lists_of(database@),
                forall|t: int, i: int|
                    0 <= t < s && 0 <= i < catalog[t].len() ==> (#[trigger] catalog[t][i]).bounded(),
            decreases SLOT_COUNT - s,
        {
            let list = &database[s];
            let mut i: usize = 0;
            while i < list.len()
                invariant
                    i <= list.len(),
                    s < SLOT_COUNT,
                    database@.len() == SLOT_COUNT,
                    catalog == lists_of(database@),
                    list@ == catalog[s as int],
                    forall|j: int| 0 <= j < i ==> (#[trigger] catalog[s as int][j]).bounded(),
                decreases list.len() - i,
            {
                if !list[i].is_bounded() {
                    assert(!catalog[s as int][i as int].bounded());
                    return Err(CatalogError::StatOutOfRange);
                }
                i += 1;
            }
            s += 1;
        }
        let cards = Character::count(&database);
        match total(&cards) {
            Some(total) => Ok(Character::build(database, cards, total)),
            None => Err(CatalogError::TooManyLoadouts),
        }
    }

    /// A character over a database that can be searched, with nothing worn.
    pub(crate) fn assemble(database: Vec<Vec<Item>>) -> (c: Character)
        requires
            catalog_ok(lists_of(database@)),
        ensures
            c.wf(),
            c.catalog() == lists_of(database@),
            c.equipped() == empty_slots(),
    {
        let cards = Character::count(&database);
        let total = total(&cards).unwrap();
        Character::build(database, cards, total)
    }

    /// The cardinalities of the searched slots of `database`.
    fn count(database: &Vec<Vec<Item>>) -> (cards: Vec<usize>)
        requires
            database@.len() == SLOT_COUNT,
        ensures
            cards@ == cards_of(lists_of(database@)),
    {
        let ghost catalog = lists_of(database@);
        let order = brute_force_slots();
        let mut cards: Vec<usize> = Vec::new();
        let mut p: usize = 0;
        while p < SEARCHED_SLOTS
            invariant
                p <= SEARCHED_SLOTS,
                order@ == searched_slots(),
                database@.len() == SLOT_COUNT,
                catalog == lists_of(database@),
                cards@.len() == p,
                forall|q: int| 0 <= q < p ==> cards@[q] == cards_of(catalog)[q],
            decreases SEARCHED_SLOTS - p,
        {
            cards.push(database[order[p].index()].len());
            p += 1;
        }
        assert(cards@ =~= cards_of(catalog));
        cards
    }

    /// The character over `database`, with nothing worn, given the cardinalities
    /// of the searched slots and their product.
    fn build(database: Vec<Vec<Item>>, cards: Vec<usize>, total: u64) -> (c: Character)
        requires
            catalog_ok(lists_of(database@)),
            cards@ == cards_of(lists_of(database@)),
            total == total_of(cards@),
        ensures
            c.wf(),
            c.catalog() == lists_of(database@),
            c.equipped() == empty_slots(),
    {
        let mut slots: Vec<Option<Item>> = Vec::new();
        let mut n: usize = 0;
        while n < SLOT_COUNT
            invariant
                n <= SLOT_COUNT,
                slots@.len() == n,
                forall|j: int| 0 <= j < n ==> slots@[j] is None,
            decreases SLOT_COUNT - n,
        {
            slots.push(None);
            n += 1;
        }
        assert(slots@ =~= empty_slots());
        Character { slots, database, cards, total }
    }

    /// The cardinalities of the searched slots, in the order of their digits.
    pub fn cardinalities(&self) -> (cards: &Vec<usize>)
        requires
            self.wf(),
        ensures
            cards@ == self.cards(),
    {
        &self.cards
    }

    /// The number of loadouts: the product, over the searched slots, of the
    /// number of items plus one.
    pub fn total_combos(&self) -> (total: u64)
        requires
            self.wf(),
        ensures
            total == total_of(self.cards()),
    {
        self.total
    }

    /// Puts on the loadout `choices`: each searched slot takes the chosen item of
    /// its list, or nothing where the choice lies past the list.
    pub fn dress(&mut self, choices: &Vec<usize>)
        requires
            old(self).wf(),
            choices@.len() == SEARCHED_SLOTS,
        ensures
            final(self).wf(),
            final(self).catalog() == old(self).catalog(),
            final(self).equipped() == dressed(old(self).catalog(), choices@),
    {
        let ghost catalog = self.catalog();
        let mut s: usize = 0;
        while s < SLOT_COUNT
            invariant
                s <= SLOT_COUNT,
                self.slots@.len() == SLOT_COUNT,
                self.database == old(self).database,
                self.cards == old(self).cards,
                self.total == old(self).total,
                forall|j: int| 0 <= j < s ==> self.slots@[j] is None,
            decreases SLOT_COUNT - s,
        {
            self.slots.set(s, None);
            s += 1;
        }
        assert(self.slots@ =~= empty_slots());
        let order = brute_force_slots();
        let mut p: usize = 0;
        while p < SEARCHED_SLOTS
            invariant
                p <= SEARCHED_SLOTS,
                order@ == searched_slots(),
                choices@.len() == SEARCHED_SLOTS,
                self.database == old(self).database,
                self.cards == old(self).cards,
                self.total == old(self).total,
                catalog == lists_of(self.database@),
                self.database@.len() == SLOT_COUNT,
                self.slots@ == dressed_upto(catalog, choices@, p as int),
                self.slots@.len() == SLOT_COUNT,
            decreases SEARCHED_SLOTS - p,
        {
            let s = order[p].index();
            let list = &self.database[s];
            let choice = choices[p];
            let worn = if choice < list.len() {
                Some(list[choice])
            } else {
                None
            };
            assert(worn == pick(catalog[s as int], choice));
            self.slots.set(s, worn);
            p += 1;
        }
        proof {
            lemma_dressed_bounded(catalog, choices@, SEARCHED_SLOTS as int);
        }
    }

    /// The sum of `stat` over what is worn.
    fn sum_stat(&self, stat: Stat) -> (sum: i32)
        requires
            self.wf(),
        ensures
            sum == stat_sum(self.equipped(), stat),
            -STAT_LIMIT * SLOT_COUNT <= sum <= STAT_LIMIT * SLOT_COUNT,
    {
        let mut sum: i32 = 0;
        let mut i: usize = 0;
        while i < self.slots.len()
            invariant
                i <= self.slots@.len(),
                self.slots@.len() == SLOT_COUNT,
                all_bounded(self.slots@),
                sum == stat_sum(self.slots@.take(i as int), stat),
                -10_000 * i <= sum <= 10_000 * i,
            decreases self.slots@.len() - i,
        {
            proof {
                assert(self.slots@.take(i + 1).drop_last() =~= self.slots@.take(i as int));
                assert(self.slots@.take(i + 1).last() == self.slots@[i as int]);
            }
            match &self.slots[i] {
                Some(item) => {
                    assert(item.bounded());
                    assert(-STAT_LIMIT <= item.stat_of(stat) <= STAT_LIMIT);
                    sum = sum + item.stat(stat);
                },
                None => {},
            }
            i += 1;
        }
        assert(self.slots@.take(self.slots@.len() as int) =~= self.slots@);
        sum
    }

    /// The healing power of what is worn.
    pub fn healing(&self) -> (healing: i32)
        requires
            self.wf(),
        ensures
            healing == healing_at(self.equipped()),
    {
        self.sum_stat(Stat::Healing)
    }

    /// The health of the character with what is worn.
    pub fn health(&self) -> (health: i32)
        requires
            self.wf(),
        ensures
            health == health_at(self.equipped()),
    {
        let stamina = BASE_STAMINA + self.sum_stat(Stat::Stamina);
        health_from_stamina(stamina)
    }

    /// The mana of the character with what is worn.
    pub fn mana(&self) -> (mana: i32)
        requires
            self.wf(),
        ensures
            mana == mana_at(self.equipped()),
    {
        let intellect = BASE_INTELLECT + self.sum_stat(Stat::Intellect);
        let pool = BASE_MANA + self.sum_stat(Stat::Mana);
        mana_from(intellect, pool)
    }

    /// The healing volume of the character with what is worn.
    pub fn volume(&self) -> (volume: i64)
        requires
            self.wf(),
        ensures
            volume == volume_at(self.equipped()),
    {
        volume_from(self.mana(), self.healing())
    }

    /// All four derived statistics of what is worn.
    pub fn evaluate(&self) -> (e: Evaluation)
        requires
            self.wf(),
        ensures
            evaluates(e, self.equipped()),
    {
        let mana = self.mana();
        let healing = self.healing();
        Evaluation { health: self.health(), mana, healing, volume: volume_from(mana, healing) }
    }

    /// What is worn in `slot`.
    pub fn worn(&self, slot: Slot) -> (item: Option<Item>)
        requires
            self.wf(),
        ensures
            item == self.equipped()[slot.ord()],
    {
        self.slots[slot.index()]
    }

    /// The items on offer for `slot`.
    pub fn offered(&self, slot: Slot) -> (list: &Vec<Item>)
        requires
            self.wf(),
        ensures
            list@ == self.catalog()[slot.ord()],
    {
        &self.database[slot.index()]
    }
}

} // verus!
