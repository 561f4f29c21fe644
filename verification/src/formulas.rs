//! The derived statistics: health, mana, and the healing volume.
//!
//! Stamina and intellect count one for one below a breakpoint of twenty and
//! many times over above it. The volume is the healing that the mana pool pays
//! for: the number of casts it affords times the healing of one cast.

use vstd::prelude::*;
use vstd::arithmetic::div_mod::lemma_fundamental_div_mod_converse;
use vstd::arithmetic::div_mod::lemma_fundamental_div_mod;

verus! {

/// The health of the character before any stamina.
pub const BASE_HEALTH: i32 = 368;

/// The mana of the character before any intellect or item.
pub const BASE_MANA: i32 = 665;

/// The stamina of the character with nothing worn.
pub const BASE_STAMINA: i32 = 32;

/// The intellect of the character with nothing worn.
pub const BASE_INTELLECT: i32 = 57;

/// Up to this much of a primary attribute counts one for one.
pub const BREAKPOINT: i32 = 20;

/// Health per point of stamina above the breakpoint.
pub const HEALTH_PER_STAMINA: i32 = 10;

/// Mana per point of intellect above the breakpoint.
pub const MANA_PER_INTELLECT: i32 = 15;

/// The mana that one cast costs.
pub const MANA_PER_CAST: i32 = 255;

/// What one cast heals before any healing power: the middle of 586 and 662.
pub const AVERAGE_BASE_HEAL: i32 = 624;

/// The share of the healing power that one cast gains, in thousandths.
pub const HEALING_COEFFICIENT_MILLIS: i32 = 857;

/// Health from the stamina total.
pub open spec fn health_of(stamina_total: int) -> int {
    if stamina_total < BREAKPOINT {
        BASE_HEALTH + stamina_total
    } else {
        BASE_HEALTH + BREAKPOINT + (stamina_total - BREAKPOINT) * HEALTH_PER_STAMINA
    }
}

/// Mana from the intellect total and the mana total of base and items.
pub open spec fn mana_of(intellect_total: int, mana_base_total: int) -> int {
    if intellect_total < BREAKPOINT {
        mana_base_total + intellect_total
    } else {
        mana_base_total + BREAKPOINT + (intellect_total - BREAKPOINT) * MANA_PER_INTELLECT
    }
}

/// 0.857 times the healing power, rounded to the nearest integer, halves upwards.
pub open spec fn scaled_healing_of(healing: int) -> int {
    (HEALING_COEFFICIENT_MILLIS * healing + 500) / 1000
}

/// What one cast heals.
pub open spec fn heal_per_cast_of(healing: int) -> int {
    AVERAGE_BASE_HEAL + scaled_healing_of(healing)
}

/// The healing volume: the whole casts that `mana` pays for, times what one heals.
pub open spec fn volume_of(mana: int, healing: int) -> int {
    (mana / (MANA_PER_CAST as int)) * heal_per_cast_of(healing)
}

/// Health at and around the breakpoint.
pub proof fn lemma_health_breakpoint()
    ensures
        health_of(19) == BASE_HEALTH + 19,
        health_of(20) == BASE_HEALTH + 20,
        health_of(25) == BASE_HEALTH + 70,
{
}

/// Mana at and around the breakpoint, whatever the mana total `m` of base and
/// items: below it intellect adds one for one, above it fifteen for one.
pub proof fn lemma_mana_breakpoint(m: int)
    ensures
        mana_of(19, m) == m + 19,
        mana_of(25, m) == m + 20 + 5 * 15,
{
}

/// Health from the stamina total of base and items.
pub fn health_from_stamina(stamina_total: i32) -> (health: i32)
    requires
        health_of(stamina_total as int) <= i32::MAX,
    ensures
        health == health_of(stamina_total as int),
{
    if stamina_total < BREAKPOINT {
        BASE_HEALTH + stamina_total
    } else {
        BASE_HEALTH + BREAKPOINT + (stamina_total - BREAKPOINT) * HEALTH_PER_STAMINA
    }
}

/// Mana from the intellect total and the mana total of base and items.
pub fn mana_from(intellect_total: i32, mana_base_total: i32) -> (mana: i32)
    requires
        i32::MIN <= mana_of(intellect_total as int, mana_base_total as int) <= i32::MAX,
    ensures
        mana == mana_of(intellect_total as int, mana_base_total as int),
{
    if intellect_total < BREAKPOINT {
        // The sum fits, so widening and narrowing again loses nothing.
        (mana_base_total as i64 + intellect_total as i64) as i32
    } else {
        let above: i64 = (intellect_total as i64 - BREAKPOINT as i64) * MANA_PER_INTELLECT as i64;
        (mana_base_total as i64 + BREAKPOINT as i64 + above) as i32
    }
}

/// The quotient of `a` by a positive `d`, rounded towards minus infinity.
fn floor_div(a: i64, d: i64) -> (q: i64)
    requires
        d > 0,
        a > i64::MIN,
    ensures
        q == a / d,
{
    if a >= 0 {
        a / d
    } else {
        let up: i64 = -a;
        let q: i64 = up / d;
        let r: i64 = up % d;
        proof {
            lemma_fundamental_div_mod(up as int, d as int);
        }
        if r == 0 {
            proof {
                assert(a as int == (-q) * d + 0) by (nonlinear_arith)
                    requires
                        up == d * q + 0,
                        a == -up,
                ;
                lemma_fundamental_div_mod_converse(a as int, d as int, -(q as int), 0);
            }
            -q
        } else {
            proof {
                assert(a as int == (-q - 1) * d + (d - r)) by (nonlinear_arith)
                    requires
                        up == d * q + r,
                        a == -up,
                ;
                lemma_fundamental_div_mod_converse(a as int, d as int, -(q as int) - 1, d - r);
            }
            -q - 1
        }
    }
}

/// What one cast heals with the healing power `healing`.
pub fn heal_per_cast(healing: i32) -> (heal: i64)
    ensures
        heal == heal_per_cast_of(healing as int),
{
    let power: i64 = healing as i64;
    assert(-0x0400_0000_0000 <= HEALING_COEFFICIENT_MILLIS * power <= 0x0400_0000_0000);
    let scaled: i64 = floor_div(HEALING_COEFFICIENT_MILLIS as i64 * power + 500, 1000);
    AVERAGE_BASE_HEAL as i64 + scaled
}

/// The healing volume of a mana pool and a healing power.
pub fn volume_from(mana: i32, healing: i32) -> (volume: i64)
    ensures
        volume == volume_of(mana as int, healing as int),
{
    let casts: i64 = floor_div(mana as i64, MANA_PER_CAST as i64);
    let heal: i64 = heal_per_cast(healing);
    assert(-0x0100_0000_0000_0000 <= casts * heal <= 0x0100_0000_0000_0000) by (nonlinear_arith)
        requires
            -0x0100_0000 <= casts <= 0x0100_0000,
            -0x1_0000_0000 <= heal <= 0x1_0000_0000,
    ;
    casts * heal
}

} // verus!
