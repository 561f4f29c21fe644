//! The stock catalog: the items that the search chooses from.

use vstd::prelude::*;
use crate::character::cards_of;
use crate::character::catalog_ok;
use crate::character::empty_slots;
use crate::character::lists_of;
use crate::character::Character;
use crate::codec::lemma_unfold_at;
use crate::codec::total_of;
use crate::item::Item;
use crate::item::SEARCHED_SLOTS;
use crate::item::SLOT_COUNT;

verus! {

/// The items for the head.
pub open spec fn head_stock() -> Seq<Item> {
    seq![
        Item::named("Holy Shroud").with_armor(40).with_spirit(6).with_healing(33),
        Item::named("Elders Hat of the Eagle").with_armor(37).with_intellect(9).with_stamina(9),
        Item::named("Elders Hat of Intellect").with_armor(37).with_intellect(14),
        Item::named("Elders Hat of Stamina").with_armor(37).with_intellect(14),
    ]
}

/// The items for the head.
pub fn head_items() -> (items: Vec<Item>)
    ensures
        items@ == head_stock(),
{
    let items = vec![
        Item::named("Holy Shroud").with_armor(40).with_spirit(6).with_healing(33),
        Item::named("Elders Hat of the Eagle").with_armor(37).with_intellect(9).with_stamina(9),
        Item::named("Elders Hat of Intellect").with_armor(37).with_intellect(14),
        Item::named("Elders Hat of Stamina").with_armor(37).with_intellect(14),
    ];
    assert(items@ =~= head_stock());
    items
}

/// The items for the neck.
pub open spec fn neck_stock() -> Seq<Item> {
    seq![
        Item::named("Crystal Starfire Medallion").with_intellect(4).with_stamina(4).with_spirit(3),
        Item::named("River Pride Choker").with_strength(4).with_stamina(9),
    ]
}

/// The items for the neck.
pub fn neck_items() -> (items: Vec<Item>)
    ensures
        items@ == neck_stock(),
{
    let items = vec![
        Item::named("Crystal Starfire Medallion").with_intellect(4).with_stamina(4).with_spirit(3),
        Item::named("River Pride Choker").with_strength(4).with_stamina(9),
    ];
    assert(items@ =~= neck_stock());
    items
}

/// The items for the shoulders.
pub open spec fn shoulder_stock() -> Seq<Item> {
    seq![
        Item::named("Magician's Mantle").with_armor(32).with_intellect(9).with_spell(5).with_healing(5),
        Item::named("Berylline Pads").with_armor(39).with_intellect(10).with_stamina(5).with_spirit(6),
    ]
}

/// The items for the shoulders.
pub fn shoulder_items() -> (items: Vec<Item>)
    ensures
        items@ == shoulder_stock(),
{
    let items = vec![
        Item::named("Magician's Mantle").with_armor(32).with_intellect(9).with_spell(5).with_healing(5),
        Item::named("Berylline Pads").with_armor(39).with_intellect(10).with_stamina(5).with_spirit(6),
    ];
    assert(items@ =~= shoulder_stock());
    items
}

/// The items for the back.
pub open spec fn back_stock() -> Seq<Item> {
    seq![
        Item::named("Cloak of Rot").with_armor(22).with_intellect(7).with_stamina(-5i32),
        Item::named("Archer's Cloak of the Eagle").with_armor(23).with_intellect(5).with_stamina(5),
        Item::named("Archer's Cloak of Stamina").with_armor(23).with_stamina(8),
        Item::named("Archer's Cloak of Intellect").with_armor(23).with_intellect(8),
        Item::named("Archer's Cloak of Healing").with_armor(23).with_healing(18),
    ]
}

/// The items for the back.
pub fn back_items() -> (items: Vec<Item>)
    ensures
        items@ == back_stock(),
{
    let items = vec![
        Item::named("Cloak of Rot").with_armor(22).with_intellect(7).with_stamina(-5i32),
        Item::named("Archer's Cloak of the Eagle").with_armor(23).with_intellect(5).with_stamina(5),
        Item::named("Archer's Cloak of Stamina").with_armor(23).with_stamina(8),
        Item::named("Archer's Cloak of Intellect").with_armor(23).with_intellect(8),
        Item::named("Archer's Cloak of Healing").with_armor(23).with_healing(18),
    ];
    assert(items@ =~= back_stock());
    items
}

/// The items for the chest.
pub open spec fn chest_stock() -> Seq<Item> {
    seq![
        Item::named("Mechbuilder's Overalls").with_armor(48).with_intellect(15).with_stamina(5),
        Item::named("Beguiler Robes").with_armor(50).with_intellect(12).with_stamina(7).with_spirit(8),
    ]
}

/// The items for the chest.
pub fn chest_items() -> (items: Vec<Item>)
    ensures
        items@ == chest_stock(),
{
    let items = vec![
        Item::named("Mechbuilder's Overalls").with_armor(48).with_intellect(15).with_stamina(5),
        Item::named("Beguiler Robes").with_armor(50).with_intellect(12).with_stamina(7).with_spirit(8),
    ];
    assert(items@ =~= chest_stock());
    items
}

/// The items for the wrists.
pub open spec fn wrist_stock() -> Seq<Item> {
    seq![
        Item::named("Mindthrust Bracers").with_armor(17).with_intellect(9).with_stamina(-5i32),
        Item::named("Gallan Cuffs").with_armor(21).with_intellect(7).with_stamina(3),
        Item::named("Vital Bracelets of the Eagle").with_armor(19).with_intellect(5).with_stamina(5),
        Item::named("Vital Bracelets of Stamina").with_armor(19).with_stamina(7),
    ]
}

/// The items for the wrists.
pub fn wrist_items() -> (items: Vec<Item>)
    ensures
        items@ == wrist_stock(),
{
    let items = vec![
        Item::named("Mindthrust Bracers").with_armor(17).with_intellect(9).with_stamina(-5i32),
        Item::named("Gallan Cuffs").with_armor(21).with_intellect(7).with_stamina(3),
        Item::named("Vital Bracelets of the Eagle").with_armor(19).with_intellect(5).with_stamina(5),
        Item::named("Vital Bracelets of Stamina").with_armor(19).with_stamina(7),
    ];
    assert(items@ =~= wrist_stock());
    items
}

/// The items for the hands.
pub open spec fn hands_stock() -> Seq<Item> {
    seq![
        Item::named("Hotshot Pilot's GLoves").with_armor(31).with_intellect(8).with_stamina(5).with_spirit(5).with_agility(3),
        Item::named("Truefaith Gloves").with_armor(27).with_intellect(3).with_healing(15),
        Item::named("Vital Handwraps of the Eagle").with_armor(29).with_intellect(7).with_stamina(7),
        Item::named("Vital Handwraps of Healing").with_armor(29).with_healing(24),
    ]
}

/// The items for the hands.
pub fn hands_items() -> (items: Vec<Item>)
    ensures
        items@ == hands_stock(),
{
    let items = vec![
        Item::named("Hotshot Pilot's GLoves").with_armor(31).with_intellect(8).with_stamina(5).with_spirit(5).with_agility(3),
        Item::named("Truefaith Gloves").with_armor(27).with_intellect(3).with_healing(15),
        Item::named("Vital Handwraps of the Eagle").with_armor(29).with_intellect(7).with_stamina(7),
        Item::named("Vital Handwraps of Healing").with_armor(29).with_healing(24),
    ];
    assert(items@ =~= hands_stock());
    items
}

/// The items for the waist.
pub open spec fn waist_stock() -> Seq<Item> {
    seq![
        Item::named("Razzeric's Customized Seatbelt").with_armor(30).with_intellect(12).with_stamina(1),
        Item::named("Conjurer's Cinch of the Eagle").with_armor(26).with_intellect(7).with_stamina(7),
        Item::named("Conjurer's Cinch of Intellect").with_armor(26).with_intellect(11),
        Item::named("Conjurer's Cinch of Healing").with_armor(26).with_healing(24),
    ]
}

/// The items for the waist.
pub fn waist_items() -> (items: Vec<Item>)
    ensures
        items@ == waist_stock(),
{
    let items = vec![
        Item::named("Razzeric's Customized Seatbelt").with_armor(30).with_intellect(12).with_stamina(1),
        Item::named("Conjurer's Cinch of the Eagle").with_armor(26).with_intellect(7).with_stamina(7),
        Item::named("Conjurer's Cinch of Intellect").with_armor(26).with_intellect(11),
        Item::named("Conjurer's Cinch of Healing").with_armor(26).with_healing(24),
    ];
    assert(items@ =~= waist_stock());
    items
}

/// The items for the legs.
pub open spec fn legs_stock() -> Seq<Item> {
    seq![
        Item::named("Elder's Pants of the Eagle").with_armor(40).with_intellect(9).with_stamina(9),
        Item::named("Elder's Pants of Healing").with_armor(40).with_healing(31),
    ]
}

/// The items for the legs.
pub fn legs_items() -> (items: Vec<Item>)
    ensures
        items@ == legs_stock(),
{
    let items = vec![
        Item::named("Elder's Pants of the Eagle").with_armor(40).with_intellect(9).with_stamina(9),
        Item::named("Elder's Pants of Healing").with_armor(40).with_healing(31),
    ];
    assert(items@ =~= legs_stock());
    items
}

/// The items for the feet.
pub open spec fn feet_stock() -> Seq<Item> {
    seq![
        Item::named("Acidic Walkers").with_armor(34).with_intellect(8).with_spirit(4).with_spell(5).with_healing(5),
        Item::named("Nightsky Boots").with_armor(32).with_intellect(4).with_stamina(8),
    ]
}

/// The items for the feet.
pub fn feet_items() -> (items: Vec<Item>)
    ensures
        items@ == feet_stock(),
{
    let items = vec![
        Item::named("Acidic Walkers").with_armor(34).with_intellect(8).with_spirit(4).with_spell(5).with_healing(5),
        Item::named("Nightsky Boots").with_armor(32).with_intellect(4).with_stamina(8),
    ];
    assert(items@ =~= feet_stock());
    items
}

/// The items for either ring finger.
pub open spec fn ring_stock() -> Seq<Item> {
    seq![
        Item::named("Nogg's Gold Ring").with_stamina(9).with_spirit(4).once(),
        Item::named("Plains Ring").with_stamina(8).with_intellect(3).once(),
        Item::named("Black Widow Band").with_stamina(-5i32).with_intellect(7).once(),
    ]
}

/// The items for either ring finger.
pub fn ring_items() -> (items: Vec<Item>)
    ensures
        items@ == ring_stock(),
{
    let items = vec![
        Item::named("Nogg's Gold Ring").with_stamina(9).with_spirit(4).once(),
        Item::named("Plains Ring").with_stamina(8).with_intellect(3).once(),
        Item::named("Black Widow Band").with_stamina(-5i32).with_intellect(7).once(),
    ];
    assert(items@ =~= ring_stock());
    items
}

/// The items for the weapon hand.
pub open spec fn weapon_stock() -> Seq<Item> {
    seq![
        Item::named("Death Speaker Scepter").with_spirit(1).with_healing(11),
        Item::named("Skullbreaker").with_intellect(5).with_stamina(3),
        Item::named("Crested Scepter").with_intellect(2).with_stamina(5),
    ]
}

/// The items for the weapon hand.
pub fn weapon_items() -> (items: Vec<Item>)
    ensures
        items@ == weapon_stock(),
{
    let items = vec![
        Item::named("Death Speaker Scepter").with_spirit(1).with_healing(11),
        Item::named("Skullbreaker").with_intellect(5).with_stamina(3),
        Item::named("Crested Scepter").with_intellect(2).with_stamina(5),
    ];
    assert(items@ =~= weapon_stock());
    items
}

/// The items for the off hand.
pub open spec fn off_hand_stock() -> Seq<Item> {
    seq![
        Item::named("Witch's Finger").with_intellect(7).with_stamina(4),
        Item::named("Orb of Mismantle").with_spirit(4).with_healing(9),
    ]
}

/// The items for the off hand.
pub fn off_hand_items() -> (items: Vec<Item>)
    ensures
        items@ == off_hand_stock(),
{
    let items = vec![
        Item::named("Witch's Finger").with_intellect(7).with_stamina(4),
        Item::named("Orb of Mismantle").with_spirit(4).with_healing(9),
    ];
    assert(items@ =~= off_hand_stock());
    items
}

/// The items for the wand slot.
pub open spec fn wand_stock() -> Seq<Item> {
    seq![
        Item::named("Gravestone Scepter").with_spirit(1),
    ]
}

/// The items for the wand slot.
pub fn wand_items() -> (items: Vec<Item>)
    ensures
        items@ == wand_stock(),
{
    let items = vec![
        Item::named("Gravestone Scepter").with_spirit(1),
    ];
    assert(items@ =~= wand_stock());
    items
}

/// The items for the enchantment of head or legs.
pub open spec fn arcanum_stock() -> Seq<Item> {
    seq![
        Item::named("Lesser Arcanum of Constitution").with_stamina(10),
        Item::named("Arcanum of Focus").with_spell(8).with_healing(8),
        Item::named("Lesser Arcanum of Rumination").with_intellect(10),
    ]
}

/// The items for the enchantment of head or legs.
pub fn arcanum_items() -> (items: Vec<Item>)
    ensures
        items@ == arcanum_stock(),
{
    let items = vec![
        Item::named("Lesser Arcanum of Constitution").with_stamina(10),
        Item::named("Arcanum of Focus").with_spell(8).with_healing(8),
        Item::named("Lesser Arcanum of Rumination").with_intellect(10),
    ];
    assert(items@ =~= arcanum_stock());
    items
}

/// The items for the enchantment of the chest.
pub open spec fn chest_enchant_stock() -> Seq<Item> {
    seq![
        Item::named("Enchant Chest - Major Health").with_stamina(10),
        Item::named("Enchant Chest - Major Mana").with_mana(100),
        Item::named("Enchant Chest - Greater Stats").with_intellect(4).with_spirit(4).with_agility(4).with_strength(4).with_stamina(4),
    ]
}

/// The items for the enchantment of the chest.
pub fn chest_enchant_items() -> (items: Vec<Item>)
    ensures
        items@ == chest_enchant_stock(),
{
    let items = vec![
        Item::named("Enchant Chest - Major Health").with_stamina(10),
        Item::named("Enchant Chest - Major Mana").with_mana(100),
        Item::named("Enchant Chest - Greater Stats").with_intellect(4).with_spirit(4).with_agility(4).with_strength(4).with_stamina(4),
    ];
    assert(items@ =~= chest_enchant_stock());
    items
}

/// The items for the enchantment of the wrists.
pub open spec fn wrist_enchant_stock() -> Seq<Item> {
    seq![
        Item::named("Enchant Bracer - Healing Power").with_healing(24),
        Item::named("Enchant Bracer - Superior Stamina").with_stamina(9),
    ]
}

/// The items for the enchantment of the wrists.
pub fn wrist_enchant_items() -> (items: Vec<Item>)
    ensures
        items@ == wrist_enchant_stock(),
{
    let items = vec![
        Item::named("Enchant Bracer - Healing Power").with_healing(24),
        Item::named("Enchant Bracer - Superior Stamina").with_stamina(9),
    ];
    assert(items@ =~= wrist_enchant_stock());
    items
}

/// The items for the enchantment of the weapon.
pub open spec fn weapon_enchant_stock() -> Seq<Item> {
    seq![
        Item::named("Enchant Weapon - Mighty Intellect").with_intellect(22),
        Item::named("Enchant Weapon - Healing Power").with_healing(55),
    ]
}

/// The items for the enchantment of the weapon.
pub fn weapon_enchant_items() -> (items: Vec<Item>)
    ensures
        items@ == weapon_enchant_stock(),
{
    let items = vec![
        Item::named("Enchant Weapon - Mighty Intellect").with_intellect(22),
        Item::named("Enchant Weapon - Healing Power").with_healing(55),
    ];
    assert(items@ =~= weapon_enchant_stock());
    items
}

/// The stock catalog, slot by slot. Both ring fingers choose from the same
/// rings, head and legs from the same enchantments, and there are no trinkets.
pub open spec fn stock_catalog() -> Seq<Seq<Item>> {
    seq![
        head_stock(),
        neck_stock(),
        shoulder_stock(),
        back_stock(),
        chest_stock(),
        wrist_stock(),
        hands_stock(),
        waist_stock(),
        legs_stock(),
        feet_stock(),
        ring_stock(),
        ring_stock(),
        Seq::empty(),
        Seq::empty(),
        weapon_stock(),
        off_hand_stock(),
        wand_stock(),
        arcanum_stock(),
        arcanum_stock(),
        chest_enchant_stock(),
        wrist_enchant_stock(),
        weapon_enchant_stock(),
    ]
}

/// The cardinalities of the searched slots of the stock catalog.
pub open spec fn stock_cards() -> Seq<usize> {
    seq![4, 2, 2, 5, 2, 4, 4, 4, 2, 2, 3, 3, 3, 2, 1, 3, 3, 2, 3, 2]
}

/// The number of loadouts over the stock catalog.
pub const STOCK_TOTAL: u64 = 201_553_920_000;

/// Whether every item of `list` is bounded.
pub open spec fn list_bounded(list: Seq<Item>) -> bool {
    forall|i: int| 0 <= i < list.len() ==> (#[trigger] list[i]).bounded()
}

/// The searched slots of the stock catalog hold as many items as `stock_cards`
/// says.
pub proof fn lemma_stock_cards()
    ensures
        cards_of(stock_catalog()) == stock_cards(),
{
    let catalog = stock_catalog();
    let slots = crate::item::searched_slots();
    assert forall|p: int| 0 <= p < SEARCHED_SLOTS implies catalog[slots[p].ord()].len()
        == stock_cards()[p] by {
        let s = slots[p].ord();
        assert(0 <= s < SLOT_COUNT);
    }
    assert(cards_of(catalog) =~= stock_cards());
}

/// The stock catalog offers `STOCK_TOTAL` loadouts.
pub proof fn lemma_stock_total()
    ensures
        total_of(stock_cards()) == STOCK_TOTAL,
{
    let cards = stock_cards();
    assert(cards.skip(20) =~= Seq::empty());
    assert(total_of(cards.skip(20)) == 1);
    assert(total_of(cards.skip(19)) == 3) by {
        lemma_unfold_at(cards, cards, 19, 0);
        assert(cards[19] == 2);
        let rest = total_of(cards.skip(20));
        assert(3 * rest == 3);
        assert(crate::codec::radix(cards[19]) * rest == 3 * rest);
    }
    assert(total_of(cards.skip(18)) == 12) by {
        lemma_unfold_at(cards, cards, 18, 0);
        assert(cards[18] == 3);
        let rest = total_of(cards.skip(19));
        assert(4 * rest == 12);
        assert(crate::codec::radix(cards[18]) * rest == 4 * rest);
    }
    assert(total_of(cards.skip(17)) == 36) by {
        lemma_unfold_at(cards, cards, 17, 0);
        assert(cards[17] == 2);
        let rest = total_of(cards.skip(18));
        assert(3 * rest == 36);
        assert(crate::codec::radix(cards[17]) * rest == 3 * rest);
    }
    assert(total_of(cards.skip(16)) == 144) by {
        lemma_unfold_at(cards, cards, 16, 0);
        assert(cards[16] == 3);
        let rest = total_of(cards.skip(17));
        assert(4 * rest == 144);
        assert(crate::codec::radix(cards[16]) * rest == 4 * rest);
    }
    assert(total_of(cards.skip(15)) == 576) by {
        lemma_unfold_at(cards, cards, 15, 0);
        assert(cards[15] == 3);
        let rest = total_of(cards.skip(16));
        assert(4 * rest == 576);
        assert(crate::codec::radix(cards[15]) * rest == 4 * rest);
    }
    assert(total_of(cards.skip(14)) == 1152) by {
        lemma_unfold_at(cards, cards, 14, 0);
        assert(cards[14] == 1);
        let rest = total_of(cards.skip(15));
        assert(2 * rest == 1152);
        assert(crate::codec::radix(cards[14]) * rest == 2 * rest);
    }
    assert(total_of(cards.skip(13)) == 3456) by {
        lemma_unfold_at(cards, cards, 13, 0);
        assert(cards[13] == 2);
        let rest = total_of(cards.skip(14));
        assert(3 * rest == 3456);
        assert(crate::codec::radix(cards[13]) * rest == 3 * rest);
    }
    assert(total_of(cards.skip(12)) == 13824) by {
        lemma_unfold_at(cards, cards, 12, 0);
        assert(cards[12] == 3);
        let rest = total_of(cards.skip(13));
        assert(4 * rest == 13824);
        assert(crate::codec::radix(cards[12]) * rest == 4 * rest);
    }
    assert(total_of(cards.skip(11)) == 55296) by {
        lemma_unfold_at(cards, cards, 11, 0);
        assert(cards[11] == 3);
        let rest = total_of(cards.skip(12));
        assert(4 * rest == 55296);
        assert(crate::codec::radix(cards[11]) * rest == 4 * rest);
    }
    assert(total_of(cards.skip(10)) == 221184) by {
        lemma_unfold_at(cards, cards, 10, 0);
        assert(cards[10] == 3);
        let rest = total_of(cards.skip(11));
        assert(4 * rest == 221184);
        assert(crate::codec::radix(cards[10]) * rest == 4 * rest);
    }
    assert(total_of(cards.skip(9)) == 663552) by {
        lemma_unfold_at(cards, cards, 9, 0);
        assert(cards[9] == 2);
        let rest = total_of(cards.skip(10));
        assert(3 * rest == 663552);
        assert(crate::codec::radix(cards[9]) * rest == 3 * rest);
    }
    assert(total_of(cards.skip(8)) == 1990656) by {
        lemma_unfold_at(cards, cards, 8, 0);
        assert(cards[8] == 2);
        let rest = total_of(cards.skip(9));
        assert(3 * rest == 1990656);
        assert(crate::codec::radix(cards[8]) * rest == 3 * rest);
    }
    assert(total_of(cards.skip(7)) == 9953280) by {
        lemma_unfold_at(cards, cards, 7, 0);
        assert(cards[7] == 4);
        let rest = total_of(cards.skip(8));
        assert(5 * rest == 9953280);
        assert(crate::codec::radix(cards[7]) * rest == 5 * rest);
    }
    assert(total_of(cards.skip(6)) == 49766400) by {
        lemma_unfold_at(cards, cards, 6, 0);
        assert(cards[6] == 4);
        let rest = total_of(cards.skip(7));
        assert(5 * rest == 49766400);
        assert(crate::codec::radix(cards[6]) * rest == 5 * rest);
    }
    assert(total_of(cards.skip(5)) == 248832000) by {
        lemma_unfold_at(cards, cards, 5, 0);
        assert(cards[5] == 4);
        let rest = total_of(cards.skip(6));
        assert(5 * rest == 248832000);
        assert(crate::codec::radix(cards[5]) * rest == 5 * rest);
    }
    assert(total_of(cards.skip(4)) == 746496000) by {
        lemma_unfold_at(cards, cards, 4, 0);
        assert(cards[4] == 2);
        let rest = total_of(cards.skip(5));
        assert(3 * rest == 746496000);
        assert(crate::codec::radix(cards[4]) * rest == 3 * rest);
    }
    assert(total_of(cards.skip(3)) == 4478976000) by {
        lemma_unfold_at(cards, cards, 3, 0);
        assert(cards[3] == 5);
        let rest = total_of(cards.skip(4));
        assert(6 * rest == 4478976000);
        assert(crate::codec::radix(cards[3]) * rest == 6 * rest);
    }
    assert(total_of(cards.skip(2)) == 13436928000) by {
        lemma_unfold_at(cards, cards, 2, 0);
        assert(cards[2] == 2);
        let rest = total_of(cards.skip(3));
        assert(3 * rest == 13436928000);
        assert(crate::codec::radix(cards[2]) * rest == 3 * rest);
    }
    assert(total_of(cards.skip(1)) == 40310784000) by {
        lemma_unfold_at(cards, cards, 1, 0);
        assert(cards[1] == 2);
        let rest = total_of(cards.skip(2));
        assert(3 * rest == 40310784000);
        assert(crate::codec::radix(cards[1]) * rest == 3 * rest);
    }
    assert(total_of(cards.skip(0)) == 201553920000) by {
        lemma_unfold_at(cards, cards, 0, 0);
        assert(cards[0] == 4);
        let rest = total_of(cards.skip(1));
        assert(5 * rest == 201553920000);
        assert(crate::codec::radix(cards[0]) * rest == 5 * rest);
    }
    assert(cards.skip(0) =~= cards);
}

/// The stock catalog can be searched.
pub proof fn lemma_stock_ok()
    ensures
        catalog_ok(stock_catalog()),
{
    lemma_stock_cards();
    lemma_stock_total();
    let catalog = stock_catalog();
    assert(list_bounded(head_stock()));
    assert(list_bounded(neck_stock()));
    assert(list_bounded(shoulder_stock()));
    assert(list_bounded(back_stock()));
    assert(list_bounded(chest_stock()));
    assert(list_bounded(wrist_stock()));
    assert(list_bounded(hands_stock()));
    assert(list_bounded(waist_stock()));
    assert(list_bounded(legs_stock()));
    assert(list_bounded(feet_stock()));
    assert(list_bounded(ring_stock()));
    assert(list_bounded(weapon_stock()));
    assert(list_bounded(off_hand_stock()));
    assert(list_bounded(wand_stock()));
    assert(list_bounded(arcanum_stock()));
    assert(list_bounded(chest_enchant_stock()));
    assert(list_bounded(wrist_enchant_stock()));
    assert(list_bounded(weapon_enchant_stock()));
    assert(list_bounded(Seq::<Item>::empty()));
    assert forall|s: int, i: int| 0 <= s < catalog.len() && 0 <= i < catalog[s].len() implies (
    #[trigger] catalog[s][i]).bounded() by {
        assert(list_bounded(catalog[s]));
    }
}

impl Character {
    /// A character over the stock catalog, with nothing worn.
    pub fn new() -> (c: Character)
        ensures
            c.wf(),
            c.catalog() == stock_catalog(),
            c.equipped() == empty_slots(),
            c.cards() == stock_cards(),
            total_of(c.cards()) == STOCK_TOTAL,
    {
        let database: Vec<Vec<Item>> = vec![
            head_items(),
            neck_items(),
            shoulder_items(),
            back_items(),
            chest_items(),
            wrist_items(),
            hands_items(),
            waist_items(),
            legs_items(),
            feet_items(),
            ring_items(),
            ring_items(),
            Vec::new(),
            Vec::new(),
            weapon_items(),
            off_hand_items(),
            wand_items(),
            arcanum_items(),
            arcanum_items(),
            chest_enchant_items(),
            wrist_enchant_items(),
            weapon_enchant_items(),
        ];
        proof {
            assert(lists_of(database@) =~= stock_catalog());
            lemma_stock_ok();
            lemma_stock_cards();
            lemma_stock_total();
        }
        Character::assemble(database)
    }
}

} // verus!
