use loadouts::character::CatalogError;
use loadouts::character::Character;
use loadouts::item::brute_force_slots;
use loadouts::item::Item;
use loadouts::item::Slot;
use loadouts::item::Stat;
use loadouts::item::SEARCHED_SLOTS;
use loadouts::item::SLOT_COUNT;
use loadouts::stock::STOCK_TOTAL;

fn empty_database() -> Vec<Vec<Item>> {
    vec![Vec::new(); SLOT_COUNT]
}

fn none_everywhere(character: &Character) -> Vec<usize> {
    character.cardinalities().clone()
}

#[test]
fn slots_are_numbered_in_catalog_order() {
    assert_eq!(Slot::Head.index(), 0);
    assert_eq!(Slot::Ring2.index(), 11);
    assert_eq!(Slot::Trinket1.index(), 12);
    assert_eq!(Slot::Trinket2.index(), 13);
    assert_eq!(Slot::Weapon.index(), 14);
    assert_eq!(Slot::LegEnchant.index(), 18);
    assert_eq!(Slot::WeaponEnchant.index(), 21);
}

#[test]
fn the_search_skips_the_trinkets() {
    let slots = brute_force_slots();
    assert_eq!(slots.len(), SEARCHED_SLOTS);
    assert_eq!(slots[0], Slot::Head);
    assert_eq!(slots[11], Slot::Ring2);
    assert_eq!(slots[12], Slot::Weapon);
    assert_eq!(slots[15], Slot::HeadEnchant);
    assert_eq!(slots[16], Slot::ChestEnchant);
    assert_eq!(slots[17], Slot::WristEnchant);
    assert_eq!(slots[18], Slot::LegEnchant);
    assert_eq!(slots[19], Slot::WeaponEnchant);
    assert!(!slots.contains(&Slot::Trinket1));
    assert!(!slots.contains(&Slot::Trinket2));
    for (p, slot) in slots.iter().enumerate() {
        assert!(!slots[..p].contains(slot));
    }
}

#[test]
fn items_are_built_field_by_field() {
    let item = Item::named("Test").with_armor(1).with_strength(2).with_stamina(3).with_intellect(4)
        .with_spirit(5).with_agility(6).with_spell(7).with_healing(8).with_mana(9).once();
    assert_eq!(item, Item {
        name: "Test",
        armor: 1,
        strength: 2,
        stamina: 3,
        intellect: 4,
        spirit: 5,
        agility: 6,
        spell: 7,
        healing: 8,
        mana: 9,
        unique: true,
    });
    assert_eq!(Item::named("Bare"), Item { name: "Bare", ..Default::default() });
    assert_eq!(item.stat(Stat::Stamina), 3);
    assert_eq!(item.stat(Stat::Intellect), 4);
    assert_eq!(item.stat(Stat::Healing), 8);
    assert_eq!(item.stat(Stat::Mana), 9);
    assert!(item.is_bounded());
    assert!(Item::named("Edge").with_mana(10_000).with_stamina(-10_000).is_bounded());
    assert!(!Item::named("Over").with_healing(10_001).is_bounded());
    assert!(!Item::named("Under").with_intellect(-10_001).is_bounded());
    assert!(Item::named("Armor does not count").with_armor(1_000_000).is_bounded());
}

#[test]
fn the_stock_catalog_is_as_listed() {
    let character = Character::new();
    assert_eq!(
        character.cardinalities(),
        &vec![4, 2, 2, 5, 2, 4, 4, 4, 2, 2, 3, 3, 3, 2, 1, 3, 3, 2, 3, 2]
    );
    assert_eq!(character.total_combos(), 201_553_920_000);
    assert_eq!(character.total_combos(), STOCK_TOTAL);
    assert_eq!(character.offered(Slot::Trinket1).len(), 0);
    assert_eq!(character.offered(Slot::Trinket2).len(), 0);
    assert_eq!(character.offered(Slot::Ring1), character.offered(Slot::Ring2));
    assert_eq!(character.offered(Slot::HeadEnchant), character.offered(Slot::LegEnchant));
    let head = character.offered(Slot::Head);
    assert_eq!(head[0], Item {
        name: "Holy Shroud",
        armor: 40,
        spirit: 6,
        healing: 33,
        ..Default::default()
    });
    assert_eq!(head[3].name, "Elders Hat of Stamina");
    let back = character.offered(Slot::Back);
    assert_eq!(back[0], Item {
        name: "Cloak of Rot",
        armor: 22,
        intellect: 7,
        stamina: -5,
        ..Default::default()
    });
    let rings = character.offered(Slot::Ring1);
    assert!(rings.iter().all(|ring| ring.unique));
    assert_eq!(rings[2].stamina, -5);
    let chest = character.offered(Slot::ChestEnchant);
    assert_eq!(chest[1], Item { name: "Enchant Chest - Major Mana", mana: 100, ..Default::default() });
    assert_eq!(chest[2].strength, 4);
    assert_eq!(chest[2].agility, 4);
    let weapon = character.offered(Slot::WeaponEnchant);
    assert_eq!(weapon[0].intellect, 22);
    assert_eq!(weapon[1].healing, 55);
    let mut items = 0;
    for s in 0..SLOT_COUNT {
        items += character.offered(brute_force_slots_with_trinkets()[s]).len();
    }
    assert_eq!(items, 56);
}

fn brute_force_slots_with_trinkets() -> Vec<Slot> {
    vec![
        Slot::Head, Slot::Neck, Slot::Shoulder, Slot::Back, Slot::Chest, Slot::Wrist, Slot::Hands,
        Slot::Waist, Slot::Legs, Slot::Feet, Slot::Ring1, Slot::Ring2, Slot::Trinket1,
        Slot::Trinket2, Slot::Weapon, Slot::OffHand, Slot::Wand, Slot::HeadEnchant,
        Slot::LegEnchant, Slot::ChestEnchant, Slot::WristEnchant, Slot::WeaponEnchant,
    ]
}

#[test]
fn a_fresh_character_wears_nothing() {
    let character = Character::new();
    for slot in brute_force_slots_with_trinkets() {
        assert_eq!(character.worn(slot), None);
    }
    // Stamina 32: 368 + 20 + 12 * 10. Intellect 57: 665 + 20 + 37 * 15.
    assert_eq!(character.health(), 508);
    assert_eq!(character.mana(), 1240);
    assert_eq!(character.healing(), 0);
    assert_eq!(character.volume(), 4 * 624);
    let e = character.evaluate();
    assert_eq!((e.health, e.mana, e.healing, e.volume), (508, 1240, 0, 2496));
}

#[test]
fn dressing_puts_on_the_chosen_items() {
    let mut character = Character::new();
    let mut choices = none_everywhere(&character);
    // Holy Shroud, Cloak of Rot, Enchant Chest - Major Mana, Enchant Weapon - Healing Power.
    choices[0] = 0;
    choices[3] = 0;
    choices[16] = 1;
    choices[19] = 1;
    character.dress(&choices);
    assert_eq!(character.worn(Slot::Head).unwrap().name, "Holy Shroud");
    assert_eq!(character.worn(Slot::Back).unwrap().name, "Cloak of Rot");
    assert_eq!(character.worn(Slot::ChestEnchant).unwrap().name, "Enchant Chest - Major Mana");
    assert_eq!(character.worn(Slot::WeaponEnchant).unwrap().name, "Enchant Weapon - Healing Power");
    assert_eq!(character.worn(Slot::Neck), None);
    assert_eq!(character.worn(Slot::LegEnchant), None);
    assert_eq!(character.worn(Slot::Trinket1), None);
    // Stamina 32 - 5 = 27, intellect 57 + 7 = 64, mana 665 + 100, healing 33 + 55.
    assert_eq!(character.health(), 368 + 20 + 7 * 10);
    assert_eq!(character.mana(), 765 + 20 + 44 * 15);
    assert_eq!(character.healing(), 88);
    // 1445 / 255 = 5 casts; 0.857 * 88 = 75.416.
    assert_eq!(character.volume(), 5 * (624 + 75));
    // Dressing again replaces the whole loadout.
    let bare = none_everywhere(&character);
    character.dress(&bare);
    assert_eq!(character.worn(Slot::Head), None);
    assert_eq!(character.health(), 508);
}

#[test]
fn a_choice_past_the_list_is_none() {
    let mut character = Character::new();
    let mut choices = vec![0usize; SEARCHED_SLOTS];
    choices[14] = 7;
    character.dress(&choices);
    assert_eq!(character.worn(Slot::Wand), None);
    assert_eq!(character.worn(Slot::Head).unwrap().name, "Holy Shroud");
    assert_eq!(character.worn(Slot::LegEnchant).unwrap().name, "Lesser Arcanum of Constitution");
    assert_eq!(character.worn(Slot::ChestEnchant).unwrap().name, "Enchant Chest - Major Health");
}

#[test]
fn a_database_needs_a_list_for_each_slot() {
    assert_eq!(Character::from_database(Vec::new()).err(), Some(CatalogError::WrongSlotCount));
    assert_eq!(
        Character::from_database(vec![Vec::new(); SLOT_COUNT - 1]).err(),
        Some(CatalogError::WrongSlotCount)
    );
    assert_eq!(
        Character::from_database(vec![Vec::new(); SLOT_COUNT + 1]).err(),
        Some(CatalogError::WrongSlotCount)
    );
    let character = Character::from_database(empty_database()).unwrap();
    assert_eq!(character.total_combos(), 1);
    assert_eq!(character.cardinalities(), &vec![0usize; SEARCHED_SLOTS]);
}

#[test]
fn a_database_needs_bounded_items() {
    let mut database = empty_database();
    database[Slot::Trinket2.index()].push(Item::named("Too much").with_stamina(10_001));
    assert_eq!(Character::from_database(database).err(), Some(CatalogError::StatOutOfRange));
    let mut database = empty_database();
    database[Slot::Head.index()].push(Item::named("Fine"));
    database[Slot::Head.index()].push(Item::named("Too little").with_mana(-10_001));
    assert_eq!(Character::from_database(database).err(), Some(CatalogError::StatOutOfRange));
    let mut database = empty_database();
    database[Slot::Head.index()].push(Item::named("At the limit").with_healing(10_000));
    assert!(Character::from_database(database).is_ok());
}

#[test]
fn a_database_needs_a_total_that_fits() {
    let mut database = empty_database();
    for slot in brute_force_slots() {
        database[slot.index()] = vec![Item::named("Filler"); 9];
    }
    assert_eq!(Character::from_database(database.clone()).err(), Some(CatalogError::TooManyLoadouts));
    // The trinkets are not searched and do not count.
    database[Slot::Head.index()].clear();
    database[Slot::Trinket1.index()] = vec![Item::named("Filler"); 1000];
    let character = Character::from_database(database).unwrap();
    assert_eq!(character.total_combos(), 10_000_000_000_000_000_000);
}

#[test]
fn the_sums_cannot_overflow_at_the_limits() {
    let mut database = empty_database();
    for slot in brute_force_slots() {
        database[slot.index()] = vec![
            Item::named("Most").with_stamina(10_000).with_intellect(10_000).with_mana(10_000)
                .with_healing(10_000),
            Item::named("Least").with_stamina(-10_000).with_intellect(-10_000).with_mana(-10_000)
                .with_healing(-10_000),
        ];
    }
    let mut character = Character::from_database(database).unwrap();
    character.dress(&vec![0; SEARCHED_SLOTS]);
    assert_eq!(character.health(), 368 + 20 + (200_032 - 20) * 10);
    assert_eq!(character.mana(), 665 + 200_000 + 20 + (200_057 - 20) * 15);
    assert_eq!(character.healing(), 200_000);
    assert_eq!(character.volume(), (3_201_240 / 255) * (624 + 171_400));
    character.dress(&vec![1; SEARCHED_SLOTS]);
    assert_eq!(character.health(), 368 + 32 - 200_000);
    assert_eq!(character.mana(), 665 - 200_000 + 57 - 200_000);
    assert_eq!(character.healing(), -200_000);
    // -399278 / 255 rounds down to -1566; 624 - 171400.
    assert_eq!(character.volume(), -1566 * (624 - 171_400));
}
