use loadouts::formulas::heal_per_cast;
use loadouts::formulas::health_from_stamina;
use loadouts::formulas::mana_from;
use loadouts::formulas::volume_from;
use loadouts::formulas::AVERAGE_BASE_HEAL;
use loadouts::formulas::BASE_HEALTH;
use loadouts::formulas::BASE_INTELLECT;
use loadouts::formulas::BASE_MANA;
use loadouts::formulas::BASE_STAMINA;

#[test]
fn the_bases_are_those_of_the_character() {
    assert_eq!(BASE_HEALTH, 368);
    assert_eq!(BASE_MANA, 665);
    assert_eq!(BASE_STAMINA, 32);
    assert_eq!(BASE_INTELLECT, 57);
    assert_eq!(AVERAGE_BASE_HEAL, (586 + 662) / 2);
}

#[test]
fn health_around_the_breakpoint() {
    assert_eq!(health_from_stamina(19), BASE_HEALTH + 19);
    assert_eq!(health_from_stamina(20), BASE_HEALTH + 20);
    assert_eq!(health_from_stamina(25), BASE_HEALTH + 70);
    assert_eq!(health_from_stamina(0), 368);
    assert_eq!(health_from_stamina(-5), 363);
    assert_eq!(health_from_stamina(32), 368 + 20 + 120);
}

#[test]
fn mana_around_the_breakpoint() {
    for m in [0, 1, 665, 765, -40] {
        assert_eq!(mana_from(19, m), m + 19);
        assert_eq!(mana_from(25, m), m + 20 + 5 * 15);
        assert_eq!(mana_from(20, m), m + 20);
    }
    assert_eq!(mana_from(57, 665), 665 + 20 + 37 * 15);
    assert_eq!(mana_from(-3, 10), 7);
}

#[test]
fn heal_per_cast_rounds_to_the_nearest() {
    assert_eq!(heal_per_cast(0), 624);
    // 0.857 * 100 = 85.7
    assert_eq!(heal_per_cast(100), 624 + 86);
    // 0.857 * 1 = 0.857
    assert_eq!(heal_per_cast(1), 625);
    // 0.857 * 10 = 8.57
    assert_eq!(heal_per_cast(10), 624 + 9);
    // 0.857 * 4 = 3.428
    assert_eq!(heal_per_cast(4), 624 + 3);
    // 0.857 * 500 = 428.5, a half, which goes up
    assert_eq!(heal_per_cast(500), 624 + 429);
    // 0.857 * 1000 = 857 exactly
    assert_eq!(heal_per_cast(1000), 624 + 857);
    // 0.857 * -10 = -8.57
    assert_eq!(heal_per_cast(-10), 624 - 9);
}

#[test]
fn volume_is_whole_casts_times_heal_per_cast() {
    assert_eq!(volume_from(1240, 0), 4 * 624);
    assert_eq!(volume_from(1000, 100), 3 * 710);
    assert_eq!(volume_from(254, 100), 0);
    assert_eq!(volume_from(255, 100), 710);
    assert_eq!(volume_from(509, 55), 624 + 47);
    assert_eq!(volume_from(0, 0), 0);
    // A pool in debt pays for no cast: the quotient rounds down.
    assert_eq!(volume_from(-1, 0), -624);
    assert_eq!(volume_from(-255, 0), -624);
    assert_eq!(volume_from(-256, 0), -1248);
}
