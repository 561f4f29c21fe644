//! Equipment slots and the items that go into them.

use vstd::prelude::*;

verus! {

/// The number of equipment slots.
pub const SLOT_COUNT: usize = 22;

/// The number of slots that the search runs over.
pub const SEARCHED_SLOTS: usize = 20;

/// No item may add or take more than this to any one statistic, so that every
/// derived statistic of a full loadout fits in 32 bits.
pub const STAT_LIMIT: i32 = 10_000;

/// An equipment position.
#[derive(Clone, Copy, PartialEq, Eq, Structural, Debug)]
pub enum Slot {
    Head,
    Neck,
    Shoulder,
    Back,
    Chest,
    Wrist,
    Hands,
    Waist,
    Legs,
    Feet,
    Ring1,
    Ring2,
    Trinket1,
    Trinket2,
    Weapon,
    OffHand,
    Wand,
    HeadEnchant,
    LegEnchant,
    ChestEnchant,
    WristEnchant,
    WeaponEnchant,
}

impl Slot {
    /// The slot's place in the catalog.
    pub open spec fn ord(self) -> int {
        match self {
            Slot::Head => 0,
            Slot::Neck => 1,
            Slot::Shoulder => 2,
            Slot::Back => 3,
            Slot::Chest => 4,
            Slot::Wrist => 5,
            Slot::Hands => 6,
            Slot::Waist => 7,
            Slot::Legs => 8,
            Slot::Feet => 9,
            Slot::Ring1 => 10,
            Slot::Ring2 => 11,
            Slot::Trinket1 => 12,
            Slot::Trinket2 => 13,
            Slot::Weapon => 14,
            Slot::OffHand => 15,
            Slot::Wand => 16,
            Slot::HeadEnchant => 17,
            Slot::LegEnchant => 18,
            Slot::ChestEnchant => 19,
            Slot::WristEnchant => 20,
            Slot::WeaponEnchant => 21,
        }
    }

    /// The slot's place in the catalog.
    pub fn index(self) -> (i: usize)
        ensures
            i == self.ord(),
            i < SLOT_COUNT,
    {
        match self {
            Slot::Head => 0,
            Slot::Neck => 1,
            Slot::Shoulder => 2,
            Slot::Back => 3,
            Slot::Chest => 4,
            Slot::Wrist => 5,
            Slot::Hands => 6,
            Slot::Waist => 7,
            Slot::Legs => 8,
            Slot::Feet => 9,
            Slot::Ring1 => 10,
            Slot::Ring2 => 11,
            Slot::Trinket1 => 12,
            Slot::Trinket2 => 13,
            Slot::Weapon => 14,
            Slot::OffHand => 15,
            Slot::Wand => 16,
            Slot::HeadEnchant => 17,
            Slot::LegEnchant => 18,
            Slot::ChestEnchant => 19,
            Slot::WristEnchant => 20,
            Slot::WeaponEnchant => 21,
        }
    }
}

/// The slots that the search runs over, in the order of their digits: the first
/// varies fastest. The trinket slots are never searched.
pub open spec fn searched_slots() -> Seq<Slot> {
    seq![
        Slot::Head,
        Slot::Neck,
        Slot::Shoulder,
        Slot::Back,
        Slot::Chest,
        Slot::Wrist,
        Slot::Hands,
        Slot::Waist,
        Slot::Legs,
        Slot::Feet,
        Slot::Ring1,
        Slot::Ring2,
        Slot::Weapon,
        Slot::OffHand,
        Slot::Wand,
        Slot::HeadEnchant,
        Slot::ChestEnchant,
        Slot::WristEnchant,
        Slot::LegEnchant,
        Slot::WeaponEnchant,
    ]
}

/// The searched slots, in the order of their digits.
pub fn brute_force_slots() -> (slots: Vec<Slot>)
    ensures
        slots@ == searched_slots(),
        slots@.len() == SEARCHED_SLOTS,
{
    let slots = vec![
        Slot::Head,
        Slot::Neck,
        Slot::Shoulder,
        Slot::Back,
        Slot::Chest,
        Slot::Wrist,
        Slot::Hands,
        Slot::Waist,
        Slot::Legs,
        Slot::Feet,
        Slot::Ring1,
        Slot::Ring2,
        Slot::Weapon,
        Slot::OffHand,
        Slot::Wand,
        Slot::HeadEnchant,
        Slot::ChestEnchant,
        Slot::WristEnchant,
        Slot::LegEnchant,
        Slot::WeaponEnchant,
    ];
    assert(slots@ =~= searched_slots());
    slots
}

/// No slot is searched twice.
pub proof fn lemma_searched_slots_distinct()
    ensures
        searched_slots().len() == SEARCHED_SLOTS,
        forall|p: int, q: int|
            0 <= p < q < SEARCHED_SLOTS ==> searched_slots()[p].ord() != searched_slots()[q].ord(),
{
    let s = searched_slots();
    assert(s[0].ord() == 0 && s[1].ord() == 1 && s[2].ord() == 2 && s[3].ord() == 3);
    assert(s[4].ord() == 4 && s[5].ord() == 5 && s[6].ord() == 6 && s[7].ord() == 7);
    assert(s[8].ord() == 8 && s[9].ord() == 9 && s[10].ord() == 10 && s[11].ord() == 11);
    assert(s[12].ord() == 14 && s[13].ord() == 15 && s[14].ord() == 16 && s[15].ord() == 17);
    assert(s[16].ord() == 19 && s[17].ord() == 20 && s[18].ord() == 18 && s[19].ord() == 21);
}

/// The statistics of an item that the derived statistics are made of.
#[derive(Clone, Copy, PartialEq, Eq, Structural, Debug)]
pub enum Stat {
    Stamina,
    Intellect,
    Mana,
    Healing,
}

/// What one item adds to the wearer's statistics.
#[derive(Clone, Copy, Debug, Default, PartialEq, Eq, PartialOrd, Ord)]
pub struct Item {
    pub name: &'static str,
    pub armor: i32,
    pub strength: i32,
    pub stamina: i32,
    pub intellect: i32,
    pub spirit: i32,
    pub agility: i32,
    pub spell: i32,
    pub healing: i32,
    pub mana: i32,
    pub unique: bool,
}

impl Item {
    /// What the item adds to `stat`.
    pub open spec fn stat_of(self, stat: Stat) -> int {
        match stat {
            Stat::Stamina => self.stamina as int,
            Stat::Intellect => self.intellect as int,
            Stat::Mana => self.mana as int,
            Stat::Healing => self.healing as int,
        }
    }

    /// Whether each statistic that counts lies within the limit.
    pub open spec fn bounded(self) -> bool {
        forall|stat: Stat| -STAT_LIMIT <= #[trigger] self.stat_of(stat) <= STAT_LIMIT
    }

    /// What the item adds to `stat`.
    pub fn stat(&self, stat: Stat) -> (value: i32)
        ensures
            value == self.stat_of(stat),
    {
        match stat {
            Stat::Stamina => self.stamina,
            Stat::Intellect => self.intellect,
            Stat::Mana => self.mana,
            Stat::Healing => self.healing,
        }
    }

    /// Whether each statistic that counts lies within the limit.
    pub fn is_bounded(&self) -> (ok: bool)
        ensures
            ok == self.bounded(),
    {
        let ok = -STAT_LIMIT <= self.stamina && self.stamina <= STAT_LIMIT && -STAT_LIMIT
            <= self.intellect && self.intellect <= STAT_LIMIT && -STAT_LIMIT <= self.mana
            && self.mana <= STAT_LIMIT && -STAT_LIMIT <= self.healing && self.healing
            <= STAT_LIMIT;
        proof {
            if ok {
                assert forall|stat: Stat| -STAT_LIMIT <= #[trigger] self.stat_of(stat)
                    <= STAT_LIMIT by {}
            } else {
                assert(!(-STAT_LIMIT <= self.stat_of(Stat::Stamina) <= STAT_LIMIT) || !(-STAT_LIMIT
                    <= self.stat_of(Stat::Intellect) <= STAT_LIMIT) || !(-STAT_LIMIT
                    <= self.stat_of(Stat::Mana) <= STAT_LIMIT) || !(-STAT_LIMIT <= self.stat_of(
                    Stat::Healing,
                ) <= STAT_LIMIT));
            }
        }
        ok
    }
}

impl Item {
    /// An item that adds nothing.
    pub open spec fn spec_named(name: &'static str) -> Item {
        Item {
            name,
            armor: 0,
            strength: 0,
            stamina: 0,
            intellect: 0,
            spirit: 0,
            agility: 0,
            spell: 0,
            healing: 0,
            mana: 0,
            unique: false,
        }
    }

    /// An item that adds nothing.
    #[verifier::when_used_as_spec(spec_named)]
    pub fn named(name: &'static str) -> (item: Item)
        ensures
            item == Item::spec_named(name),
    {
        Item {
            name,
            armor: 0,
            strength: 0,
            stamina: 0,
            intellect: 0,
            spirit: 0,
            agility: 0,
            spell: 0,
            healing: 0,
            mana: 0,
            unique: false,
        }
    }

    /// The item with `armor` set to `value`.
    pub open spec fn spec_with_armor(self, value: i32) -> Item {
        Item { armor: value, ..self }
    }

    /// The item with `armor` set to `value`.
    #[verifier::when_used_as_spec(spec_with_armor)]
    pub fn with_armor(self, value: i32) -> (item: Item)
        ensures
            item == self.spec_with_armor(value),
    {
        Item { armor: value, ..self }
    }

    /// The item with `strength` set to `value`.
    pub open spec fn spec_with_strength(self, value: i32) -> Item {
        Item { strength: value, ..self }
    }

    /// The item with `strength` set to `value`.
    #[verifier::when_used_as_spec(spec_with_strength)]
    pub fn with_strength(self, value: i32) -> (item: Item)
        ensures
            item == self.spec_with_strength(value),
    {
        Item { strength: value, ..self }
    }

    /// The item with `stamina` set to `value`.
    pub open spec fn spec_with_stamina(self, value: i32) -> Item {
        Item { stamina: value, ..self }
    }

    /// The item with `stamina` set to `value`.
    #[verifier::when_used_as_spec(spec_with_stamina)]
    pub fn with_stamina(self, value: i32) -> (item: Item)
        ensures
            item == self.spec_with_stamina(value),
    {
        Item { stamina: value, ..self }
    }

    /// The item with `intellect` set to `value`.
    pub open spec fn spec_with_intellect(self, value: i32) -> Item {
        Item { intellect: value, ..self }
    }

    /// The item with `intellect` set to `value`.
    #[verifier::when_used_as_spec(spec_with_intellect)]
    pub fn with_intellect(self, value: i32) -> (item: Item)
        ensures
            item == self.spec_with_intellect(value),
    {
        Item { intellect: value, ..self }
    }

    /// The item with `spirit` set to `value`.
    pub open spec fn spec_with_spirit(self, value: i32) -> Item {
        Item { spirit: value, ..self }
    }

    /// The item with `spirit` set to `value`.
    #[verifier::when_used_as_spec(spec_with_spirit)]
    pub fn with_spirit(self, value: i32) -> (item: Item)
        ensures
            item == self.spec_with_spirit(value),
    {
        Item { spirit: value, ..self }
    }

    /// The item with `agility` set to `value`.
    pub open spec fn spec_with_agility(self, value: i32) -> Item {
        Item { agility: value, ..self }
    }

    /// The item with `agility` set to `value`.
    #[verifier::when_used_as_spec(spec_with_agility)]
    pub fn with_agility(self, value: i32) -> (item: Item)
        ensures
            item == self.spec_with_agility(value),
    {
        Item { agility: value, ..self }
    }

    /// The item with `spell` set to `value`.
    pub open spec fn spec_with_spell(self, value: i32) -> Item {
        Item { spell: value, ..self }
    }

    /// The item with `spell` set to `value`.
    #[verifier::when_used_as_spec(spec_with_spell)]
    pub fn with_spell(self, value: i32) -> (item: Item)
        ensures
            item == self.spec_with_spell(value),
    {
        Item { spell: value, ..self }
    }

    /// The item with `healing` set to `value`.
    pub open spec fn spec_with_healing(self, value: i32) -> Item {
        Item { healing: value, ..self }
    }

    /// The item with `healing` set to `value`.
    #[verifier::when_used_as_spec(spec_with_healing)]
    pub fn with_healing(self, value: i32) -> (item: Item)
        ensures
            item == self.spec_with_healing(value),
    {
        Item { healing: value, ..self }
    }

    /// The item with `mana` set to `value`.
    pub open spec fn spec_with_mana(self, value: i32) -> Item {
        Item { mana: value, ..self }
    }

    /// The item with `mana` set to `value`.
    #[verifier::when_used_as_spec(spec_with_mana)]
    pub fn with_mana(self, value: i32) -> (item: Item)
        ensures
            item == self.spec_with_mana(value),
    {
        Item { mana: value, ..self }
    }

    /// The item, marked as one that can be worn once only.
    pub open spec fn spec_once(self) -> Item {
        Item { unique: true, ..self }
    }

    /// The item, marked as one that can be worn once only.
    #[verifier::when_used_as_spec(spec_once)]
    pub fn once(self) -> (item: Item)
        ensures
            item == self.spec_once(),
    {
        Item { unique: true, ..self }
    }
}

/// The item at `choice` in a slot's list, or nothing where `choice` lies past it.
pub open spec fn pick(list: Seq<Item>, choice: usize) -> Option<Item> {
    if choice < list.len() {
        Some(list[choice as int])
    } else {
        None
    }
}

/// What a slot's content adds to `stat`: an empty slot adds nothing.
pub open spec fn worn_stat(worn: Option<Item>, stat: Stat) -> int {
    match worn {
        Some(item) => item.stat_of(stat),
        None => 0,
    }
}

/// The sum of `stat` over the items in `slots`.
pub open spec fn stat_sum(slots: Seq<Option<Item>>, stat: Stat) -> int
    decreases slots.len(),
{
    if slots.len() == 0 {
        0
    } else {
        stat_sum(slots.drop_last(), stat) + worn_stat(slots.last(), stat)
    }
}

/// Whether every item in `slots` is bounded.
pub open spec fn all_bounded(slots: Seq<Option<Item>>) -> bool {
    forall|i: int| 0 <= i < slots.len() ==> (#[trigger] slots[i] matches Some(item) ==> item.bounded())
}

} // verus!
