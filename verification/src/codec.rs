//! Mixed-radix numbering of loadouts.
//!
//! A slot that holds `c` items offers `c + 1` choices: the items `0 .. c` and, as
//! choice `c`, "nothing equipped". A loadout is one choice per slot, and the slots
//! taken in their fixed order are the digits of a mixed-radix number, the first
//! slot being the least significant digit. That number is the loadout's ordinal.

use vstd::prelude::*;
use vstd::arithmetic::div_mod::lemma_fundamental_div_mod_converse;
use vstd::arithmetic::div_mod::lemma_fundamental_div_mod;
use vstd::arithmetic::div_mod::lemma_div_denominator;
use vstd::relations::injective_on;
use vstd::set_lib::set_int_range;
use vstd::set_lib::lemma_int_range;
use vstd::set_lib::lemma_map_size;

verus! {

/// The number of choices that a slot with `cardinality` items offers.
pub open spec fn radix(cardinality: usize) -> nat {
    (cardinality + 1) as nat
}

/// The number of loadouts over slots with the cardinalities `cards`: the product
/// of their radices.
pub open spec fn total_of(cards: Seq<usize>) -> nat
    decreases cards.len(),
{
    if cards.len() == 0 {
        1
    } else {
        radix(cards[0]) * total_of(cards.drop_first())
    }
}

/// Whether `choices` is a loadout over `cards`: one choice per slot, each an item
/// index or the slot's cardinality, which stands for "none".
pub open spec fn is_loadout(cards: Seq<usize>, choices: Seq<usize>) -> bool {
    &&& choices.len() == cards.len()
    &&& forall|i: int| 0 <= i < cards.len() ==> choices[i] <= cards[i]
}

/// The choices that `ordinal` stands for: the first slot takes the remainder by
/// its radix, the quotient goes on to the slots after it.
pub open spec fn decode_of(cards: Seq<usize>, ordinal: nat) -> Seq<usize>
    decreases cards.len(),
{
    if cards.len() == 0 {
        Seq::empty()
    } else {
        seq![(ordinal % radix(cards[0])) as usize] + decode_of(
            cards.drop_first(),
            ordinal / radix(cards[0]),
        )
    }
}

/// The ordinal of `choices`: each choice weighted by the product of the radices
/// of the slots before it.
pub open spec fn encode_of(cards: Seq<usize>, choices: Seq<usize>) -> nat
    decreases cards.len(),
{
    if cards.len() == 0 || choices.len() != cards.len() {
        0
    } else {
        choices[0] as nat + radix(cards[0]) * encode_of(cards.drop_first(), choices.drop_first())
    }
}

/// There is at least one loadout: the one with "none" in every slot.
pub proof fn lemma_total_positive(cards: Seq<usize>)
    ensures
        total_of(cards) >= 1,
    decreases cards.len(),
{
    if cards.len() > 0 {
        lemma_total_positive(cards.drop_first());
        assert(radix(cards[0]) * total_of(cards.drop_first()) >= 1) by (nonlinear_arith)
            requires
                radix(cards[0]) >= 1,
                total_of(cards.drop_first()) >= 1,
        ;
    }
}

/// One step of the three recursions, seen from position `i` of `cards`.
pub proof fn lemma_unfold_at(cards: Seq<usize>, choices: Seq<usize>, i: int, ordinal: nat)
    requires
        0 <= i < cards.len(),
    ensures
        total_of(cards.skip(i)) == radix(cards[i]) * total_of(cards.skip(i + 1)),
        decode_of(cards.skip(i), ordinal) == seq![(ordinal % radix(cards[i])) as usize]
            + decode_of(cards.skip(i + 1), ordinal / radix(cards[i])),
        choices.len() == cards.len() ==> encode_of(cards.skip(i), choices.skip(i))
            == choices[i] as nat + radix(cards[i]) * encode_of(
            cards.skip(i + 1),
            choices.skip(i + 1),
        ),
{
    assert(cards.skip(i).drop_first() =~= cards.skip(i + 1));
    assert(cards.skip(i)[0] == cards[i]);
    if choices.len() == cards.len() {
        assert(choices.skip(i).drop_first() =~= choices.skip(i + 1));
        assert(choices.skip(i)[0] == choices[i]);
    }
}

/// The slots from `i` on have no more loadouts than all of them.
pub proof fn lemma_total_suffix(cards: Seq<usize>, i: int)
    requires
        0 <= i <= cards.len(),
    ensures
        1 <= total_of(cards.skip(i)) <= total_of(cards),
    decreases i,
{
    lemma_total_positive(cards.skip(i));
    if i == 0 {
        assert(cards.skip(0) =~= cards);
    } else {
        lemma_total_suffix(cards, i - 1);
        lemma_unfold_at(cards, cards, i - 1, 0);
        assert(total_of(cards.skip(i)) <= radix(cards[i - 1]) * total_of(cards.skip(i)))
            by (nonlinear_arith)
            requires
                radix(cards[i - 1]) >= 1,
        ;
    }
}

/// A decoded ordinal is a loadout.
pub proof fn lemma_decode_is_loadout(cards: Seq<usize>, ordinal: nat)
    ensures
        is_loadout(cards, decode_of(cards, ordinal)),
    decreases cards.len(),
{
    if cards.len() > 0 {
        let rest = decode_of(cards.drop_first(), ordinal / radix(cards[0]));
        lemma_decode_is_loadout(cards.drop_first(), ordinal / radix(cards[0]));
        let d = decode_of(cards, ordinal);
        assert(d.len() == cards.len());
        assert forall|i: int| 0 <= i < cards.len() implies d[i] <= cards[i] by {
            if i > 0 {
                assert(d[i] == rest[i - 1]);
                assert(cards[i] == cards.drop_first()[i - 1]);
            }
        }
    }
}

/// The ordinal of a loadout lies below the total.
pub proof fn lemma_encode_bound(cards: Seq<usize>, choices: Seq<usize>)
    requires
        is_loadout(cards, choices),
    ensures
        encode_of(cards, choices) < total_of(cards),
    decreases cards.len(),
{
    if cards.len() > 0 {
        let r = radix(cards[0]);
        let e = encode_of(cards.drop_first(), choices.drop_first());
        let t = total_of(cards.drop_first());
        lemma_encode_bound(cards.drop_first(), choices.drop_first());
        assert(choices[0] as nat + r * e < r * t) by (nonlinear_arith)
            requires
                choices[0] < r,
                e < t,
        ;
    }
}

/// Decoding undoes encoding: `Decode(Encode(L)) = L` for every loadout `L`.
pub proof fn lemma_decode_encode(cards: Seq<usize>, choices: Seq<usize>)
    requires
        is_loadout(cards, choices),
    ensures
        decode_of(cards, encode_of(cards, choices)) == choices,
    decreases cards.len(),
{
    if cards.len() == 0 {
        assert(choices =~= Seq::empty());
    } else {
        let r = radix(cards[0]) as int;
        let e = encode_of(cards.drop_first(), choices.drop_first()) as int;
        let n = encode_of(cards, choices) as int;
        lemma_decode_encode(cards.drop_first(), choices.drop_first());
        assert(n == e * r + choices[0]) by (nonlinear_arith)
            requires
                n == choices[0] + r * e,
        ;
        lemma_fundamental_div_mod_converse(n, r, e, choices[0] as int);
        assert(decode_of(cards, n as nat) =~= choices);
    }
}

/// Encoding undoes decoding: `Encode(Decode(i)) = i` for every `i` below the total.
pub proof fn lemma_encode_decode(cards: Seq<usize>, ordinal: nat)
    requires
        ordinal < total_of(cards),
    ensures
        encode_of(cards, decode_of(cards, ordinal)) == ordinal,
    decreases cards.len(),
{
    if cards.len() > 0 {
        let r = radix(cards[0]) as int;
        let q = (ordinal / radix(cards[0])) as int;
        let t = total_of(cards.drop_first()) as int;
        let rest = decode_of(cards.drop_first(), q as nat);
        let d = decode_of(cards, ordinal);
        lemma_fundamental_div_mod(ordinal as int, r);
        assert(q < t) by (nonlinear_arith)
            requires
                ordinal < r * t,
                ordinal == r * q + ordinal % (r as nat),
                0 <= ordinal % (r as nat),
                r >= 1,
        ;
        lemma_encode_decode(cards.drop_first(), q as nat);
        lemma_decode_is_loadout(cards, ordinal);
        assert(d.drop_first() =~= rest);
    }
}

/// Two loadouts with the same ordinal are the same loadout.
pub proof fn lemma_encode_injective(cards: Seq<usize>, a: Seq<usize>, b: Seq<usize>)
    requires
        is_loadout(cards, a),
        is_loadout(cards, b),
        encode_of(cards, a) == encode_of(cards, b),
    ensures
        a == b,
{
    lemma_decode_encode(cards, a);
    lemma_decode_encode(cards, b);
}

/// The weight of slot `i`: the product of the radices of the slots before it.
pub open spec fn weight_of(cards: Seq<usize>, i: int) -> nat {
    total_of(cards.take(i))
}

/// The choices of the first `n` slots, each times the weight of its slot, added
/// up.
pub open spec fn weighted_sum(cards: Seq<usize>, choices: Seq<usize>, n: int) -> nat
    decreases n,
{
    if n <= 0 {
        0
    } else {
        weighted_sum(cards, choices, n - 1) + choices[n - 1] as nat * weight_of(cards, n - 1)
    }
}

/// One more slot at the end multiplies the total by its radix.
pub proof fn lemma_total_push(cards: Seq<usize>, last: usize)
    ensures
        total_of(cards.push(last)) == total_of(cards) * radix(last),
    decreases cards.len(),
{
    let longer = cards.push(last);
    if cards.len() == 0 {
        assert(longer.drop_first() =~= Seq::empty());
        assert(total_of(longer.drop_first()) == 1);
        assert(radix(last) * 1 == 1 * radix(last));
    } else {
        assert(longer.drop_first() =~= cards.drop_first().push(last));
        lemma_total_push(cards.drop_first(), last);
        let r = radix(cards[0]) as int;
        let t = total_of(cards.drop_first()) as int;
        let l = radix(last) as int;
        assert(r * (t * l) == (r * t) * l) by (nonlinear_arith);
    }
}

/// The weight of a slot is the weight of the slot before it times that slot's
/// radix, and the first slot has weight one.
pub proof fn lemma_weight_step(cards: Seq<usize>, i: int)
    requires
        0 <= i < cards.len(),
    ensures
        weight_of(cards, 0) == 1,
        weight_of(cards, i + 1) == weight_of(cards, i) * radix(cards[i]),
        weight_of(cards, cards.len() as int) == total_of(cards),
{
    assert(cards.take(0) =~= Seq::empty());
    assert(cards.take(i + 1) =~= cards.take(i).push(cards[i]));
    assert(cards.take(cards.len() as int) =~= cards);
    lemma_total_push(cards.take(i), cards[i]);
}

/// The ordinal of a loadout is the sum of its choices, each times the weight of
/// its slot.
pub proof fn lemma_encode_is_weighted_sum(cards: Seq<usize>, choices: Seq<usize>)
    requires
        choices.len() == cards.len(),
    ensures
        encode_of(cards, choices) == weighted_sum(cards, choices, cards.len() as int),
{
    lemma_encode_splits(cards, choices, cards.len() as int);
    assert(cards.skip(cards.len() as int) =~= Seq::empty());
    let w = weight_of(cards, cards.len() as int) as int;
    assert(w * 0 == 0) by (nonlinear_arith);
}

/// The ordinal of a loadout, split at slot `k`: the weighted sum of the choices
/// before it, and the ordinal of the choices from it on, times its weight.
proof fn lemma_encode_splits(cards: Seq<usize>, choices: Seq<usize>, k: int)
    requires
        choices.len() == cards.len(),
        0 <= k <= cards.len(),
    ensures
        encode_of(cards, choices) == weighted_sum(cards, choices, k) + weight_of(cards, k)
            * encode_of(cards.skip(k), choices.skip(k)),
    decreases k,
{
    if k == 0 {
        assert(cards.take(0) =~= Seq::empty());
        assert(cards.skip(0) =~= cards);
        assert(choices.skip(0) =~= choices);
        let w = weight_of(cards, 0) as int;
        let e = encode_of(cards.skip(0), choices.skip(0)) as int;
        assert(w == 1);
        assert(w * e == e) by (nonlinear_arith)
            requires
                w == 1,
        ;
    } else {
        lemma_encode_splits(cards, choices, k - 1);
        lemma_unfold_at(cards, choices, k - 1, 0);
        lemma_weight_step(cards, k - 1);
        let w = weight_of(cards, k - 1) as int;
        let r = radix(cards[k - 1]) as int;
        let c = choices[k - 1] as int;
        let e = encode_of(cards.skip(k), choices.skip(k)) as int;
        assert(w * (c + r * e) == c * w + (w * r) * e) by (nonlinear_arith);
    }
}

/// The choice that an ordinal gives slot `i`: the ordinal divided by the weight
/// of the slot, modulo the radix of the slot.
pub proof fn lemma_decode_digit(cards: Seq<usize>, ordinal: nat, i: int)
    requires
        0 <= i < cards.len(),
    ensures
        weight_of(cards, i) >= 1,
        decode_of(cards, ordinal).len() == cards.len(),
        decode_of(cards, ordinal)[i] == (ordinal / weight_of(cards, i)) % radix(cards[i]),
    decreases i,
{
    lemma_total_positive(cards.take(i));
    lemma_decode_is_loadout(cards, ordinal);
    let n = ordinal as int;
    if i == 0 {
        assert(cards.take(0) =~= Seq::empty());
        let w = weight_of(cards, 0) as int;
        assert(n / w == n) by (nonlinear_arith)
            requires
                w == 1,
        ;
    } else {
        let r = radix(cards[0]) as int;
        let rest = cards.drop_first();
        lemma_decode_digit(rest, (n / r) as nat, i - 1);
        assert(cards.take(i).drop_first() =~= rest.take(i - 1));
        assert(cards.take(i)[0] == cards[0]);
        let w = weight_of(rest, i - 1) as int;
        let whole = weight_of(cards, i) as int;
        assert(whole == r * w);
        lemma_div_denominator(n, r, w);
        assert((n / r) / w == n / whole);
        assert(decode_of(cards, ordinal)[i] == decode_of(rest, (n / r) as nat)[i - 1]);
        assert(rest[i - 1] == cards[i]);
    }
}

/// The loadouts over `cards`, as a set.
pub open spec fn loadouts(cards: Seq<usize>) -> Set<Seq<usize>> {
    Set::new(|choices: Seq<usize>| is_loadout(cards, choices))
}

/// Counting the loadouts one by one gives the product of the radices: there are
/// exactly `total_of(cards)` of them, and decoding `0 .. total` lists each once.
pub proof fn lemma_total_counts_loadouts(cards: Seq<usize>)
    ensures
        loadouts(cards).finite(),
        loadouts(cards).len() == total_of(cards),
{
    let total = total_of(cards) as int;
    let ordinals = set_int_range(0, total);
    let f = |i: int| decode_of(cards, i as nat);
    lemma_int_range(0, total);
    assert(injective_on(f, ordinals)) by {
        assert forall|i: int, j: int|
            ordinals.contains(i) && ordinals.contains(j) && #[trigger] f(i) == #[trigger] f(
                j,
            ) implies i == j by {
            lemma_encode_decode(cards, i as nat);
            lemma_encode_decode(cards, j as nat);
        }
    }
    assert forall|i: int| ordinals.contains(i) implies loadouts(cards).contains(#[trigger] f(i)) by {
        lemma_decode_is_loadout(cards, i as nat);
    }
    assert forall|c: Seq<usize>| loadouts(cards).contains(c) implies exists|i: int|
        ordinals.contains(i) && f(i) == c by {
        lemma_encode_bound(cards, c);
        lemma_decode_encode(cards, c);
        let i = encode_of(cards, c) as int;
        assert(ordinals.contains(i) && f(i) == c);
    }
    assert(ordinals.map(f) =~= loadouts(cards));
    lemma_map_size(ordinals, loadouts(cards), f);
}

/// The ordinal of the choices from slot `i` on is no more than that of all of them.
pub proof fn lemma_encode_suffix(cards: Seq<usize>, choices: Seq<usize>, i: int)
    requires
        choices.len() == cards.len(),
        0 <= i <= cards.len(),
    ensures
        encode_of(cards.skip(i), choices.skip(i)) <= encode_of(cards, choices),
    decreases i,
{
    if i == 0 {
        assert(cards.skip(0) =~= cards);
        assert(choices.skip(0) =~= choices);
    } else {
        lemma_encode_suffix(cards, choices, i - 1);
        lemma_unfold_at(cards, choices, i - 1, 0);
        let e = encode_of(cards.skip(i), choices.skip(i));
        assert(e <= radix(cards[i - 1]) * e) by (nonlinear_arith)
            requires
                radix(cards[i - 1]) >= 1,
        ;
    }
}

/// Computes the number of loadouts over `cards`, or `None` where it does not fit.
pub fn total(cards: &Vec<usize>) -> (t: Option<u64>)
    ensures
        match t {
            Some(n) => n == total_of(cards@),
            None => total_of(cards@) > u64::MAX,
        },
{
    let mut acc: u64 = 1;
    let mut i: usize = cards.len();
    assert(cards@.skip(cards@.len() as int) =~= Seq::empty());
    while i > 0
        invariant
            i <= cards.len(),
            acc == total_of(cards@.skip(i as int)),
        decreases i,
    {
        i -= 1;
        let r: u128 = cards[i] as u128 + 1;
        proof {
            lemma_unfold_at(cards@, cards@, i as int, 0);
            assert(r * acc <= 0x1_0000_0000_0000_0000 * 0xffff_ffff_ffff_ffff) by (nonlinear_arith)
                requires
                    r <= 0x1_0000_0000_0000_0000,
                    acc <= 0xffff_ffff_ffff_ffff,
            ;
        }
        let wide: u128 = r * (acc as u128);
        if wide > u64::MAX as u128 {
            proof {
                lemma_total_suffix(cards@, i as int);
            }
            return None;
        }
        acc = wide as u64;
    }
    assert(cards@.skip(0) =~= cards@);
    Some(acc)
}

/// Decodes `ordinal` into one choice per slot, the first slot varying fastest.
pub fn decode(cards: &Vec<usize>, ordinal: u64) -> (choices: Vec<usize>)
    ensures
        choices@ == decode_of(cards@, ordinal as nat),
{
    let mut choices: Vec<usize> = Vec::new();
    let mut rest: u128 = ordinal as u128;
    let mut i: usize = 0;
    assert(cards@.skip(0) =~= cards@);
    while i < cards.len()
        invariant
            i <= cards.len(),
            choices@.len() == i,
            choices@ + decode_of(cards@.skip(i as int), rest as nat) == decode_of(
                cards@,
                ordinal as nat,
            ),
        decreases cards.len() - i,
    {
        let r: u128 = cards[i] as u128 + 1;
        proof {
            lemma_unfold_at(cards@, cards@, i as int, rest as nat);
        }
        let digit: u128 = rest % r;
        let ghost before = choices@;
        choices.push(digit as usize);
        assert(choices@ + decode_of(cards@.skip(i + 1), (rest / r) as nat) =~= before + (seq![
            digit as usize,
        ] + decode_of(cards@.skip(i + 1), (rest / r) as nat)));
        rest = rest / r;
        i += 1;
    }
    assert(cards@.skip(cards@.len() as int) =~= Seq::empty());
    assert(choices@ + Seq::<usize>::empty() =~= choices@);
    choices
}

/// Whether `choices` is a loadout over `cards`.
pub fn check_loadout(cards: &Vec<usize>, choices: &Vec<usize>) -> (ok: bool)
    ensures
        ok == is_loadout(cards@, choices@),
{
    if choices.len() != cards.len() {
        return false;
    }
    let mut i: usize = 0;
    while i < cards.len()
        invariant
            i <= cards.len(),
            choices.len() == cards.len(),
            forall|j: int| 0 <= j < i ==> choices@[j] <= cards@[j],
        decreases cards.len() - i,
    {
        if choices[i] > cards[i] {
            return false;
        }
        i += 1;
    }
    true
}

/// Encodes a loadout into its ordinal. `None` where `choices` is no loadout over
/// `cards`, or where the ordinal does not fit.
pub fn encode(cards: &Vec<usize>, choices: &Vec<usize>) -> (ordinal: Option<u64>)
    ensures
        match ordinal {
            Some(n) => is_loadout(cards@, choices@) && n == encode_of(cards@, choices@),
            None => !is_loadout(cards@, choices@) || encode_of(cards@, choices@) > u64::MAX,
        },
{
    if !check_loadout(cards, choices) {
        return None;
    }
    let mut acc: u64 = 0;
    let mut i: usize = cards.len();
    assert(cards@.skip(cards@.len() as int) =~= Seq::empty());
    while i > 0
        invariant
            i <= cards.len(),
            is_loadout(cards@, choices@),
            acc == encode_of(cards@.skip(i as int), choices@.skip(i as int)),
        decreases i,
    {
        i -= 1;
        let r: u128 = cards[i] as u128 + 1;
        proof {
            lemma_unfold_at(cards@, choices@, i as int, 0);
            assert(r * acc <= 0x1_0000_0000_0000_0000 * 0xffff_ffff_ffff_ffff) by (nonlinear_arith)
                requires
                    r <= 0x1_0000_0000_0000_0000,
                    acc <= 0xffff_ffff_ffff_ffff,
            ;
        }
        let wide: u128 = choices[i] as u128 + r * (acc as u128);
        if wide > u64::MAX as u128 {
            proof {
                lemma_encode_suffix(cards@, choices@, i as int);
            }
            return None;
        }
        acc = wide as u64;
    }
    assert(cards@.skip(0) =~= cards@);
    assert(choices@.skip(0) =~= choices@);
    Some(acc)
}

} // verus!
