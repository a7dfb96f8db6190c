use crate::inventory::{fits_high, fits_low, pools_valid, Pools, RecipeSet};
use crate::item::type_at;
use crate::item::{Item, ItemType, ITEM_TYPE_COUNT};
use std::collections::VecDeque;
use vstd::prelude::*;
use vstd::multiset::Multiset;
use vstd::seq_lib::lemma_multiset_commutative;

verus! {

/// The tier list an item was drawn from.
#[derive(Clone, Copy, Debug, PartialEq, Eq, Structural)]
pub enum Tier {
    Low,
    High,
}

/// The item to draw from a low-tier and a high-tier list: the head of the
/// high tier first when `prefer_high`, else the head of the low tier first,
/// falling back to the other tier.
pub open spec fn take_from(low: Seq<Item>, high: Seq<Item>, prefer_high: bool) -> Option<(Item, Tier)> {
    if prefer_high && high.len() > 0 {
        Some((high[0], Tier::High))
    } else if low.len() > 0 {
        Some((low[0], Tier::Low))
    } else if high.len() > 0 {
        Some((high[0], Tier::High))
    } else {
        None
    }
}

/// Draws the next item of type `t` (see `take_from`) and gives the pools left.
pub open spec fn take(p: Pools, t: ItemType, prefer_high: bool) -> Option<(Item, Tier, Pools)> {
    let k = t.slot();
    let low = p[k].0;
    let high = p[k].1;
    match take_from(low, high, prefer_high) {
        None => None,
        Some((it, tier)) => if tier == Tier::Low {
            Some((it, tier, p.update(k, (low.drop_first(), high))))
        } else {
            Some((it, tier, p.update(k, (low, high.drop_first()))))
        },
    }
}

/// The non-weapon slots of a bundle, in the order they are filled.
pub open spec fn body_slots() -> Seq<ItemType> {
    seq![
        ItemType::Amulet,
        ItemType::Belt,
        ItemType::Body,
        ItemType::Boots,
        ItemType::Gloves,
        ItemType::Helmet,
        ItemType::Ring,
        ItemType::Ring,
    ]
}

/// Number of non-weapon slots.
pub const BODY_SLOT_COUNT: usize = 8;

/// Fills the first `n` non-weapon slots: the items drawn, whether a low-tier
/// item was drawn (after which every slot prefers the high tier), and the
/// pools left. `None` when a slot cannot be filled.
pub open spec fn fill(p: Pools, n: nat) -> Option<(Seq<Item>, bool, Pools)>
    decreases n,
{
    if n == 0 {
        Some((Seq::empty(), false, p))
    } else {
        match fill(p, (n - 1) as nat) {
            None => None,
            Some((items, prefer_high, q)) => match take(q, body_slots()[n - 1], prefer_high) {
                None => None,
                Some((it, tier, q2)) => Some((items.push(it), prefer_high || tier == Tier::Low, q2)),
            },
        }
    }
}

/// Tries to draw a pair of one-handed weapons or shields. Gives the pair, or
/// `None`, together with the pools left: items drawn by a failed attempt stay
/// drawn.
pub open spec fn pair_attempt(p: Pools, prefer_high: bool) -> (Option<Seq<Item>>, Pools) {
    let w = ItemType::Weapon1HOrShield;
    if prefer_high {
        match take(p, w, true) {
            None => (None, p),
            Some((a, _, pa)) => match take(pa, w, true) {
                None => (None, pa),
                Some((b, _, pb)) => (Some(seq![a, b]), pb),
            },
        }
    } else {
        match take(p, w, false) {
            None => (None, p),
            Some((a, ta, pa)) => if ta == Tier::Low {
                match take(pa, w, true) {
                    None => (None, pa),
                    Some((b, _, pb)) => (Some(seq![b, a]), pb),
                }
            } else {
                match take(pa, w, false) {
                    None => (None, pa),
                    Some((b, _, pb)) => (Some(seq![a, b]), pb),
                }
            },
        }
    }
}

/// The weapon part of a bundle: a pair of one-handed weapons or shields, or
/// else one two-handed weapon.
pub open spec fn take_weapons(p: Pools, prefer_high: bool) -> Option<(Seq<Item>, Pools)> {
    let (pair, q) = pair_attempt(p, prefer_high);
    match pair {
        Some(ws) => Some((ws, q)),
        None => match take(q, ItemType::Weapon2H, prefer_high) {
            None => None,
            Some((w, _, q2)) => Some((seq![w], q2)),
        },
    }
}

/// The next bundle drawn from `p` and the pools left, or `None` when a slot
/// cannot be filled.
pub open spec fn next_bundle(p: Pools) -> Option<(Seq<Item>, Pools)> {
    match fill(p, BODY_SLOT_COUNT as nat) {
        None => None,
        Some((items, prefer_high, q)) => match take_weapons(q, prefer_high) {
            None => None,
            Some((ws, q2)) => Some((items + ws, q2)),
        },
    }
}

/// How many amulets the pools hold; every bundle uses exactly one.
pub open spec fn amulets(p: Pools) -> nat {
    p[ItemType::Amulet.slot()].0.len() + p[ItemType::Amulet.slot()].1.len()
}

/// The whole sequence of bundles drawn from `p`, until a slot cannot be filled.
pub open spec fn bundles_from(p: Pools) -> Seq<Seq<Item>>
    decreases amulets(p),
{
    match next_bundle(p) {
        None => Seq::empty(),
        Some((b, q)) => if amulets(q) < amulets(p) {
            seq![b] + bundles_from(q)
        } else {
            Seq::empty()
        },
    }
}

proof fn lemma_take(p: Pools, t: ItemType, prefer_high: bool)
    requires
        p.len() == ITEM_TYPE_COUNT,
    ensures
        take(p, t, prefer_high) is None <==> p[t.slot()].0.len() == 0 && p[t.slot()].1.len() == 0,
        take(p, t, prefer_high) matches Some((it, tier, q)) ==> {
            &&& q.len() == ITEM_TYPE_COUNT
            &&& forall|i: int| 0 <= i < ITEM_TYPE_COUNT && i != t.slot() ==> q[i] == p[i]
            &&& q[t.slot()].0.len() + q[t.slot()].1.len() + 1 == p[t.slot()].0.len()
                + p[t.slot()].1.len()
        },
{
}

proof fn lemma_fill(p: Pools, n: nat)
    requires
        p.len() == ITEM_TYPE_COUNT,
        1 <= n <= BODY_SLOT_COUNT,
    ensures
        fill(p, n) matches Some((items, f, q)) ==> {
            &&& q.len() == ITEM_TYPE_COUNT
            &&& items.len() == n
            &&& amulets(q) + 1 == amulets(p)
        },
    decreases n,
{
    if n > 1 {
        lemma_fill(p, (n - 1) as nat);
    }
    match fill(p, (n - 1) as nat) {
        None => {},
        Some((items, f, q)) => {
            lemma_take(q, body_slots()[n - 1], f);
        },
    }
}

proof fn lemma_take_weapons(p: Pools, prefer_high: bool)
    requires
        p.len() == ITEM_TYPE_COUNT,
    ensures
        take_weapons(p, prefer_high) matches Some((ws, q)) ==> q.len() == ITEM_TYPE_COUNT && amulets(
            q,
        ) == amulets(p),
{
    let w = ItemType::Weapon1HOrShield;
    lemma_take(p, w, prefer_high);
    lemma_take(p, w, true);
    if let Some((a, ta, pa)) = take(p, w, prefer_high) {
        lemma_take(pa, w, true);
        lemma_take(pa, w, false);
    }
    let q = pair_attempt(p, prefer_high).1;
    assert(q.len() == ITEM_TYPE_COUNT && amulets(q) == amulets(p));
    lemma_take(q, ItemType::Weapon2H, prefer_high);
}

/// Drawing a bundle uses exactly one amulet.
pub proof fn lemma_next_bundle_uses_one_amulet(p: Pools)
    requires
        p.len() == ITEM_TYPE_COUNT,
    ensures
        next_bundle(p) matches Some((b, q)) ==> q.len() == ITEM_TYPE_COUNT && amulets(q) + 1
            == amulets(p),
{
    lemma_fill(p, BODY_SLOT_COUNT as nat);
    if let Some((items, f, q)) = fill(p, BODY_SLOT_COUNT as nat) {
        lemma_take_weapons(q, f);
    }
}

/// Unfolds `bundles_from` by one bundle.
pub proof fn lemma_bundles_step(p: Pools)
    requires
        p.len() == ITEM_TYPE_COUNT,
    ensures
        match next_bundle(p) {
            None => bundles_from(p) == Seq::<Seq<Item>>::empty(),
            Some((b, q)) => bundles_from(p) == seq![b] + bundles_from(q),
        },
{
    lemma_next_bundle_uses_one_amulet(p);
}

/// A bundle's shape: the non-weapon slots in their fixed order, then either two
/// one-handed weapons or shields (ten items in all) or one two-handed weapon
/// (nine items in all).
pub open spec fn well_shaped(b: Seq<Item>) -> bool {
    &&& b.len() >= BODY_SLOT_COUNT
    &&& forall|k: int| 0 <= k < BODY_SLOT_COUNT ==> (#[trigger] b[k]).itype == body_slots()[k]
    &&& {
        ||| b.len() == BODY_SLOT_COUNT + 2 && b[BODY_SLOT_COUNT as int].itype
            == ItemType::Weapon1HOrShield && b[BODY_SLOT_COUNT + 1].itype
            == ItemType::Weapon1HOrShield
        ||| b.len() == BODY_SLOT_COUNT + 1 && b[BODY_SLOT_COUNT as int].itype == ItemType::Weapon2H
    }
}

proof fn lemma_type_at_slot(t: ItemType)
    ensures
        type_at(t.slot()) == t,
        0 <= t.slot() < ITEM_TYPE_COUNT,
{
}

proof fn lemma_take_valid(p: Pools, t: ItemType, prefer_high: bool)
    requires
        pools_valid(p),
    ensures
        take(p, t, prefer_high) matches Some((it, tier, q)) ==> it.itype == t && pools_valid(q),
{
    lemma_type_at_slot(t);
    let k = t.slot();
    if let Some((it, tier, q)) = take(p, t, prefer_high) {
        assert forall|i: int, j: int| 0 <= i < ITEM_TYPE_COUNT && 0 <= j < q[i].0.len() implies fits_low(
            #[trigger] q[i].0[j],
            type_at(i),
        ) by {
            if i == k && tier == Tier::Low {
                assert(q[i].0[j] == p[i].0[j + 1]);
            }
        }
        assert forall|i: int, j: int| 0 <= i < ITEM_TYPE_COUNT && 0 <= j < q[i].1.len() implies fits_high(
            #[trigger] q[i].1[j],
            type_at(i),
        ) by {
            if i == k && tier == Tier::High {
                assert(q[i].1[j] == p[i].1[j + 1]);
            }
        }
    }
}

proof fn lemma_fill_valid(p: Pools, n: nat)
    requires
        pools_valid(p),
        n <= BODY_SLOT_COUNT,
    ensures
        fill(p, n) matches Some((items, f, q)) ==> {
            &&& pools_valid(q)
            &&& items.len() == n
            &&& forall|k: int| 0 <= k < n ==> (#[trigger] items[k]).itype == body_slots()[k]
        },
    decreases n,
{
    if n > 0 {
        lemma_fill_valid(p, (n - 1) as nat);
        if let Some((items, f, q)) = fill(p, (n - 1) as nat) {
            lemma_take_valid(q, body_slots()[n - 1], f);
        }
    }
}

proof fn lemma_take_weapons_valid(p: Pools, prefer_high: bool)
    requires
        pools_valid(p),
    ensures
        take_weapons(p, prefer_high) matches Some((ws, q)) ==> {
            &&& pools_valid(q)
            &&& {
                ||| ws.len() == 2 && ws[0].itype == ItemType::Weapon1HOrShield && ws[1].itype
                    == ItemType::Weapon1HOrShield
                ||| ws.len() == 1 && ws[0].itype == ItemType::Weapon2H
            }
        },
{
    let w = ItemType::Weapon1HOrShield;
    lemma_take_valid(p, w, prefer_high);
    if let Some((a, ta, pa)) = take(p, w, prefer_high) {
        lemma_take_valid(pa, w, true);
        lemma_take_valid(pa, w, false);
    }
    let q = pair_attempt(p, prefer_high).1;
    assert(pools_valid(q));
    lemma_take_valid(q, ItemType::Weapon2H, prefer_high);
}

/// Every bundle drawn from valid pools is well shaped: the eight non-weapon
/// slots hold, in order, an amulet, a belt, a body armour, boots, gloves, a
/// helmet and two rings, and the weapon part is either two one-handed weapons or
/// shields or a single two-handed weapon, never both and never neither. A
/// bundle has exactly nine items when its weapon part is a two-handed weapon.
pub proof fn lemma_bundles_well_shaped(p: Pools)
    requires
        pools_valid(p),
    ensures
        forall|i: int| 0 <= i < bundles_from(p).len() ==> well_shaped(#[trigger] bundles_from(p)[i]),
    decreases amulets(p),
{
    lemma_bundles_step(p);
    lemma_next_bundle_uses_one_amulet(p);
    if let Some((b, q)) = next_bundle(p) {
        lemma_fill_valid(p, BODY_SLOT_COUNT as nat);
        let (items, f, q1) = fill(p, BODY_SLOT_COUNT as nat)->0;
        lemma_take_weapons_valid(q1, f);
        lemma_bundles_well_shaped(q);
        assert(well_shaped(b)) by {
            assert forall|k: int| 0 <= k < BODY_SLOT_COUNT implies (#[trigger] b[k]).itype
                == body_slots()[k] by {
                assert(b[k] == items[k]);
            }
        }
        assert forall|i: int| 0 <= i < bundles_from(p).len() implies well_shaped(
            #[trigger] bundles_from(p)[i],
        ) by {
            if i > 0 {
                assert(bundles_from(p)[i] == bundles_from(q)[i - 1]);
            }
        }
    }
}

/// The items of the first `n` entries of the pools, low tier before high tier.
pub open spec fn pool_upto(p: Pools, n: nat) -> Seq<Item>
    decreases n,
{
    if n == 0 {
        Seq::empty()
    } else {
        pool_upto(p, (n - 1) as nat) + p[n - 1].0 + p[n - 1].1
    }
}

/// All the items the pools hold, counted with their multiplicity.
pub open spec fn pool_items(p: Pools) -> Multiset<Item> {
    pool_upto(p, ITEM_TYPE_COUNT as nat).to_multiset()
}

proof fn lemma_pool_upto_update(p: Pools, q: Pools, k: int, it: Item, n: nat)
    requires
        p.len() == ITEM_TYPE_COUNT,
        q.len() == ITEM_TYPE_COUNT,
        0 <= k < ITEM_TYPE_COUNT,
        n <= ITEM_TYPE_COUNT,
        forall|i: int| 0 <= i < ITEM_TYPE_COUNT && i != k ==> q[i] == p[i],
        (p[k].0 + p[k].1).to_multiset() == (q[k].0 + q[k].1).to_multiset().insert(it),
    ensures
        n <= k ==> pool_upto(p, n) == pool_upto(q, n),
        n > k ==> pool_upto(p, n).to_multiset() == pool_upto(q, n).to_multiset().insert(it),
    decreases n,
{
    broadcast use lemma_multiset_commutative;
    broadcast use vstd::multiset::group_multiset_axioms;

    if n > 0 {
        let m = (n - 1) as nat;
        lemma_pool_upto_update(p, q, k, it, m);
        let i = n - 1;
        assert(pool_upto(p, n) =~= pool_upto(p, m) + (p[i].0 + p[i].1));
        assert(pool_upto(q, n) =~= pool_upto(q, m) + (q[i].0 + q[i].1));
        if n > k {
            assert(pool_upto(p, n).to_multiset() =~= pool_upto(q, n).to_multiset().insert(it));
        }
    }
}

proof fn lemma_items_remove(s: Seq<Item>, i: int)
    requires
        0 <= i < s.len(),
    ensures
        s.to_multiset() == s.remove(i).to_multiset().insert(s[i]),
{
    broadcast use vstd::seq_lib::group_to_multiset_ensures;
    broadcast use vstd::multiset::group_multiset_axioms;

    assert(s.contains(s[i]));
    assert(s.to_multiset() =~= s.remove(i).to_multiset().insert(s[i]));
}

proof fn lemma_take_items(p: Pools, t: ItemType, prefer_high: bool)
    requires
        p.len() == ITEM_TYPE_COUNT,
    ensures
        take(p, t, prefer_high) matches Some((it, tier, q)) ==> pool_items(p) == pool_items(q).insert(
            it,
        ),
{
    broadcast use lemma_multiset_commutative;
    broadcast use vstd::multiset::group_multiset_axioms;

    lemma_take(p, t, prefer_high);
    let k = t.slot();
    if let Some((it, tier, q)) = take(p, t, prefer_high) {
        let lo = p[k].0;
        let hi = p[k].1;
        if tier == Tier::Low {
            lemma_items_remove(lo + hi, 0);
            assert((lo + hi).remove(0) =~= lo.drop_first() + hi);
        } else {
            lemma_items_remove(lo + hi, lo.len() as int);
            assert((lo + hi).remove(lo.len() as int) =~= lo + hi.drop_first());
        }
        lemma_pool_upto_update(p, q, k, it, ITEM_TYPE_COUNT as nat);
    }
}

proof fn lemma_fill_items(p: Pools, n: nat)
    requires
        p.len() == ITEM_TYPE_COUNT,
        n <= BODY_SLOT_COUNT,
    ensures
        fill(p, n) matches Some((items, f, q)) ==> q.len() == ITEM_TYPE_COUNT && pool_items(p)
            == pool_items(q).add(items.to_multiset()),
    decreases n,
{
    broadcast use vstd::seq_lib::group_to_multiset_ensures;
    broadcast use vstd::multiset::group_multiset_axioms;

    if n == 0 {
        assert(pool_items(p) =~= pool_items(p).add(Seq::<Item>::empty().to_multiset()));
    } else {
        lemma_fill_items(p, (n - 1) as nat);
        if let Some((items, f, q)) = fill(p, (n - 1) as nat) {
            lemma_take(q, body_slots()[n - 1], f);
            lemma_take_items(q, body_slots()[n - 1], f);
            if let Some((it, tier, q2)) = take(q, body_slots()[n - 1], f) {
                assert(pool_items(p) =~= pool_items(q2).add(items.push(it).to_multiset()));
            }
        }
    }
}

proof fn lemma_take_weapons_items(p: Pools, prefer_high: bool)
    requires
        p.len() == ITEM_TYPE_COUNT,
    ensures
        take_weapons(p, prefer_high) matches Some((ws, q)) ==> q.len() == ITEM_TYPE_COUNT && pool_items(
            q,
        ).add(ws.to_multiset()).subset_of(pool_items(p)),
{
    broadcast use vstd::seq_lib::group_to_multiset_ensures;
    broadcast use vstd::multiset::group_multiset_axioms;

    let w = ItemType::Weapon1HOrShield;
    lemma_take(p, w, prefer_high);
    lemma_take_items(p, w, prefer_high);
    if let Some((a, ta, pa)) = take(p, w, prefer_high) {
        lemma_take(pa, w, true);
        lemma_take(pa, w, false);
        lemma_take_items(pa, w, true);
        lemma_take_items(pa, w, false);
        if let Some((b, tb, pb)) = take(pa, w, if prefer_high || ta == Tier::Low { true } else { false }) {
            assert(seq![a, b].to_multiset() =~= Seq::<Item>::empty().push(a).push(b).to_multiset()) by {
                assert(seq![a, b] =~= Seq::<Item>::empty().push(a).push(b));
            }
            assert(seq![b, a].to_multiset() =~= Seq::<Item>::empty().push(a).push(b).to_multiset()) by {
                assert(seq![b, a] =~= Seq::<Item>::empty().push(b).push(a));
            }
        }
    }
    let q = pair_attempt(p, prefer_high).1;
    assert(q.len() == ITEM_TYPE_COUNT && pool_items(q).subset_of(pool_items(p)));
    lemma_take(q, ItemType::Weapon2H, prefer_high);
    lemma_take_items(q, ItemType::Weapon2H, prefer_high);
    if let Some((ws, q2)) = take_weapons(p, prefer_high) {
        if pair_attempt(p, prefer_high).0 is None {
            let (wi, _, _) = take(q, ItemType::Weapon2H, prefer_high)->0;
            assert(ws.to_multiset() =~= Seq::<Item>::empty().push(wi).to_multiset()) by {
                assert(ws =~= Seq::<Item>::empty().push(wi));
            }
        }
    }
}

/// No item is used twice: across all the bundles drawn from `p`, each item
/// appears at most as many times as the pools hold it, so no bundle reuses an
/// item that an earlier bundle took.
pub proof fn lemma_no_item_reused(p: Pools)
    requires
        p.len() == ITEM_TYPE_COUNT,
    ensures
        bundles_from(p).flatten().to_multiset().subset_of(pool_items(p)),
    decreases amulets(p),
{
    broadcast use lemma_multiset_commutative;
    broadcast use vstd::multiset::group_multiset_axioms;

    lemma_bundles_step(p);
    lemma_next_bundle_uses_one_amulet(p);
    match next_bundle(p) {
        None => {
            broadcast use vstd::seq_lib::group_to_multiset_ensures;
            broadcast use vstd::multiset::group_multiset_properties;

            assert(bundles_from(p).flatten() =~= Seq::<Item>::empty());
            assert(Seq::<Item>::empty().to_multiset().len() == 0);
            assert(Seq::<Item>::empty().to_multiset() =~= Multiset::empty());
        },
        Some((b, q)) => {
            lemma_fill_items(p, BODY_SLOT_COUNT as nat);
            let (items, f, q1) = fill(p, BODY_SLOT_COUNT as nat)->0;
            lemma_take_weapons_items(q1, f);
            lemma_no_item_reused(q);
            let all = bundles_from(p);
            let (ws, _) = take_weapons(q1, f)->0;
            let rest = bundles_from(q).flatten();
            assert(all.first() == b);
            assert(all.drop_first() =~= bundles_from(q));
            assert(all.flatten() == b + rest);
            assert(b == items + ws);
            let mb = items.to_multiset().add(ws.to_multiset());
            assert(all.flatten().to_multiset() =~= mb.add(rest.to_multiset()));
            assert forall|v: Item| #[trigger] all.flatten().to_multiset().count(v) <= pool_items(p).count(
                v,
            ) by {
                assert(rest.to_multiset().count(v) <= pool_items(q).count(v));
                assert(pool_items(q).add(ws.to_multiset()).count(v) <= pool_items(q1).count(v));
            }
        },
    }
}

/// The pools agree on every type but `Useless`.
pub open spec fn same_but_useless(p: Pools, other: Pools) -> bool {
    &&& p.len() == ITEM_TYPE_COUNT
    &&& other.len() == ITEM_TYPE_COUNT
    &&& forall|i: int| 0 <= i < ITEM_TYPE_COUNT && i != ItemType::Useless.slot() ==> #[trigger] p[i] == other[i]
}

proof fn lemma_take_useless(p: Pools, other: Pools, t: ItemType, f: bool)
    requires
        same_but_useless(p, other),
        t != ItemType::Useless,
    ensures
        take(p, t, f) is None <==> take(other, t, f) is None,
        take(p, t, f) matches Some((it, tier, q)) ==> take(other, t, f) matches Some((it2, tier2, q2))
            && it2 == it && tier2 == tier && same_but_useless(q, q2),
{
    assert(p[t.slot()] == other[t.slot()]);
}

proof fn lemma_fill_useless(p: Pools, other: Pools, n: nat)
    requires
        same_but_useless(p, other),
        n <= BODY_SLOT_COUNT,
    ensures
        fill(p, n) is None <==> fill(other, n) is None,
        fill(p, n) matches Some((items, f, q)) ==> fill(other, n) matches Some((items2, f2, q2))
            && items2 == items && f2 == f && same_but_useless(q, q2),
    decreases n,
{
    if n > 0 {
        lemma_fill_useless(p, other, (n - 1) as nat);
        if let Some((items, f, q)) = fill(p, (n - 1) as nat) {
            let (_, _, q2) = fill(other, (n - 1) as nat)->0;
            lemma_take_useless(q, q2, body_slots()[n - 1], f);
        }
    }
}

proof fn lemma_next_bundle_useless(p: Pools, other: Pools)
    requires
        same_but_useless(p, other),
    ensures
        next_bundle(p) is None <==> next_bundle(other) is None,
        next_bundle(p) matches Some((b, q)) ==> next_bundle(other) matches Some((b2, q2)) && b2 == b
            && same_but_useless(q, q2),
{
    let w = ItemType::Weapon1HOrShield;
    lemma_fill_useless(p, other, BODY_SLOT_COUNT as nat);
    if let Some((items, f, q)) = fill(p, BODY_SLOT_COUNT as nat) {
        let (_, _, q2) = fill(other, BODY_SLOT_COUNT as nat)->0;
        lemma_take_useless(q, q2, w, f);
        if let Some((a, ta, qa)) = take(q, w, f) {
            let (_, _, qa2) = take(q2, w, f)->0;
            lemma_take_useless(qa, qa2, w, true);
            lemma_take_useless(qa, qa2, w, false);
        }
        let r = pair_attempt(q, f).1;
        let r2 = pair_attempt(q2, f).1;
        assert(pair_attempt(q, f).0 == pair_attempt(q2, f).0 && same_but_useless(r, r2));
        lemma_take_useless(r, r2, ItemType::Weapon2H, f);
    }
}

/// Items of type `Useless` never matter: pools that differ only in their
/// `Useless` lists give the same bundles. Together with the shape of every
/// bundle, no `Useless` item is ever drawn.
pub proof fn lemma_useless_items_never_matter(p: Pools, other: Pools)
    requires
        same_but_useless(p, other),
    ensures
        bundles_from(p) == bundles_from(other),
    decreases amulets(p),
{
    lemma_bundles_step(p);
    lemma_bundles_step(other);
    lemma_next_bundle_useless(p, other);
    lemma_next_bundle_uses_one_amulet(p);
    if let Some((b, q)) = next_bundle(p) {
        let (_, q2) = next_bundle(other)->0;
        lemma_useless_items_never_matter(q, q2);
    }
}

/// Every list of `q` is what is left of the same list of `p` once some items
/// have been taken from its front.
pub open spec fn drawn_from_fronts(p: Pools, q: Pools) -> bool {
    &&& p.len() == ITEM_TYPE_COUNT
    &&& q.len() == ITEM_TYPE_COUNT
    &&& forall|i: int|
        0 <= i < ITEM_TYPE_COUNT ==> {
            &&& (#[trigger] q[i]).0.len() <= p[i].0.len()
            &&& q[i].0 == p[i].0.skip(p[i].0.len() - q[i].0.len())
            &&& q[i].1.len() <= p[i].1.len()
            &&& q[i].1 == p[i].1.skip(p[i].1.len() - q[i].1.len())
        }
}

proof fn lemma_fronts_refl(p: Pools)
    requires
        p.len() == ITEM_TYPE_COUNT,
    ensures
        drawn_from_fronts(p, p),
{
    assert forall|i: int| 0 <= i < ITEM_TYPE_COUNT implies p[i].0 == p[i].0.skip(0) && p[i].1
        == p[i].1.skip(0) by {
        assert(p[i].0 =~= p[i].0.skip(0));
        assert(p[i].1 =~= p[i].1.skip(0));
    }
}

proof fn lemma_fronts_trans(p: Pools, q: Pools, r: Pools)
    requires
        drawn_from_fronts(p, q),
        drawn_from_fronts(q, r),
    ensures
        drawn_from_fronts(p, r),
{
    assert forall|i: int| 0 <= i < ITEM_TYPE_COUNT implies r[i].0 == p[i].0.skip(
        p[i].0.len() - r[i].0.len(),
    ) && r[i].1 == p[i].1.skip(p[i].1.len() - r[i].1.len()) by {
        assert(q[i] == q[i]);
        assert(r[i] == r[i]);
        assert(r[i].0 =~= p[i].0.skip(p[i].0.len() - r[i].0.len()));
        assert(r[i].1 =~= p[i].1.skip(p[i].1.len() - r[i].1.len()));
    }
}

proof fn lemma_take_fronts(p: Pools, t: ItemType, f: bool)
    requires
        p.len() == ITEM_TYPE_COUNT,
    ensures
        take(p, t, f) matches Some((it, tier, q)) ==> drawn_from_fronts(p, q),
{
    lemma_take(p, t, f);
    lemma_fronts_refl(p);
    let k = t.slot();
    if let Some((it, tier, q)) = take(p, t, f) {
        assert(q[k].0 =~= p[k].0.skip(p[k].0.len() - q[k].0.len()));
        assert(q[k].1 =~= p[k].1.skip(p[k].1.len() - q[k].1.len()));
        assert forall|i: int| 0 <= i < ITEM_TYPE_COUNT implies #[trigger] q[i] == q[i] && (q[i].0
            == p[i].0.skip(p[i].0.len() - q[i].0.len()) && q[i].1 == p[i].1.skip(
            p[i].1.len() - q[i].1.len(),
        )) by {
            if i != k {
                assert(q[i] == p[i]);
            }
        }
    }
}

proof fn lemma_fill_fronts(p: Pools, n: nat)
    requires
        p.len() == ITEM_TYPE_COUNT,
        n <= BODY_SLOT_COUNT,
    ensures
        fill(p, n) matches Some((items, f, q)) ==> drawn_from_fronts(p, q),
    decreases n,
{
    if n == 0 {
        lemma_fronts_refl(p);
    } else {
        lemma_fill_fronts(p, (n - 1) as nat);
        lemma_fill_items(p, (n - 1) as nat);
        if let Some((items, f, q)) = fill(p, (n - 1) as nat) {
            lemma_take_fronts(q, body_slots()[n - 1], f);
            if let Some((it, tier, q2)) = take(q, body_slots()[n - 1], f) {
                lemma_fronts_trans(p, q, q2);
            }
        }
    }
}

/// Each bundle takes its items from the fronts of the lists, after what the
/// earlier bundles took: drawing a bundle from `p` leaves every list a suffix
/// of itself, and the bundle's items are among those removed from the fronts,
/// each used once. So item `i` of a list is drawn only by the bundle during
/// which the front passed position `i`, and never again.
pub proof fn lemma_bundle_draws_from_fronts(p: Pools)
    requires
        p.len() == ITEM_TYPE_COUNT,
    ensures
        next_bundle(p) matches Some((b, q)) ==> drawn_from_fronts(p, q) && b.to_multiset().add(
            pool_items(q),
        ).subset_of(pool_items(p)),
{
    broadcast use lemma_multiset_commutative;
    broadcast use vstd::multiset::group_multiset_axioms;

    let w = ItemType::Weapon1HOrShield;
    lemma_fill_fronts(p, BODY_SLOT_COUNT as nat);
    lemma_fill_items(p, BODY_SLOT_COUNT as nat);
    if let Some((items, f, q1)) = fill(p, BODY_SLOT_COUNT as nat) {
        lemma_take_weapons_items(q1, f);
        lemma_take_fronts(q1, w, f);
        lemma_pair_attempt_fails_empty(q1, f);
        if let Some((a, ta, qa)) = take(q1, w, f) {
            lemma_take(qa, w, true);
            lemma_take(qa, w, false);
            lemma_take_fronts(qa, w, true);
            lemma_take_fronts(qa, w, false);
            lemma_fronts_refl(qa);
            lemma_fronts_trans(q1, qa, pair_attempt(q1, f).1);
        } else {
            lemma_fronts_refl(q1);
        }
        let r = pair_attempt(q1, f).1;
        assert(drawn_from_fronts(q1, r));
        lemma_take_fronts(r, ItemType::Weapon2H, f);
        if let Some((ws, q)) = take_weapons(q1, f) {
            if pair_attempt(q1, f).0 is None {
                let (_, _, q2) = take(r, ItemType::Weapon2H, f)->0;
                lemma_fronts_trans(q1, r, q2);
            }
            lemma_fronts_trans(p, q1, q);
            let b = items + ws;
            assert forall|v: Item| #[trigger] b.to_multiset().add(pool_items(q)).count(v)
                <= pool_items(p).count(v) by {
                assert(pool_items(q).add(ws.to_multiset()).count(v) <= pool_items(q1).count(v));
            }
        }
    }
}

/// Generation is restartable: a new generator over a copy of the same
/// inventory draws the same bundles in the same order.
pub proof fn lemma_generation_restartable(a: RecipeSet, b: RecipeSet)
    requires
        a@ == b@,
    ensures
        bundles_from(a@) == bundles_from(b@),
{
}

/// No item of type `t` is left in the pools.
pub open spec fn exhausted(p: Pools, t: ItemType) -> bool {
    p[t.slot()].0.len() == 0 && p[t.slot()].1.len() == 0
}

proof fn lemma_fill_frame(p: Pools, n: nat, s: int)
    requires
        p.len() == ITEM_TYPE_COUNT,
        0 <= s < ITEM_TYPE_COUNT,
        n <= BODY_SLOT_COUNT,
        forall|k: int| 0 <= k < n ==> (#[trigger] body_slots()[k]).slot() != s,
    ensures
        fill(p, n) matches Some((items, f, q)) ==> q.len() == ITEM_TYPE_COUNT && q[s] == p[s],
    decreases n,
{
    if n > 0 {
        lemma_fill_frame(p, (n - 1) as nat, s);
        if let Some((items, f, q)) = fill(p, (n - 1) as nat) {
            assert(body_slots()[n - 1].slot() != s);
            lemma_take(q, body_slots()[n - 1], f);
        }
    }
}

proof fn lemma_pair_attempt_fails_empty(p: Pools, prefer_high: bool)
    requires
        p.len() == ITEM_TYPE_COUNT,
    ensures
        pair_attempt(p, prefer_high).1.len() == ITEM_TYPE_COUNT,
        pair_attempt(p, prefer_high).1[ItemType::Weapon2H.slot()] == p[ItemType::Weapon2H.slot()],
        pair_attempt(p, prefer_high).0 is None ==> exhausted(
            pair_attempt(p, prefer_high).1,
            ItemType::Weapon1HOrShield,
        ),
{
    let w = ItemType::Weapon1HOrShield;
    lemma_take(p, w, prefer_high);
    if let Some((a, ta, pa)) = take(p, w, prefer_high) {
        lemma_take(pa, w, true);
        lemma_take(pa, w, false);
    }
}

/// Once a non-weapon slot's type is used up, or both weapon types are, no
/// further bundle can be drawn.
pub proof fn lemma_no_bundle_when_exhausted(p: Pools, j: int)
    requires
        p.len() == ITEM_TYPE_COUNT,
        0 <= j < BODY_SLOT_COUNT,
        exhausted(p, body_slots()[j]) || (exhausted(p, ItemType::Weapon1HOrShield) && exhausted(
            p,
            ItemType::Weapon2H,
        )),
    ensures
        next_bundle(p) is None,
{
    let n = BODY_SLOT_COUNT as nat;
    if exhausted(p, body_slots()[j]) {
        let t = body_slots()[j];
        let first: int = if j == 7 { 6 } else { j };
        assert(body_slots()[first] == t);
        lemma_fill_frame(p, first as nat, t.slot());
        if let Some((items, f, q)) = fill(p, first as nat) {
            lemma_take(q, t, f);
        }
        assert(fill(p, (first + 1) as nat) is None);
        lemma_fill_stays_failed(p, (first + 1) as nat, n);
    } else {
        lemma_fill_frame(p, n, ItemType::Weapon1HOrShield.slot());
        lemma_fill_frame(p, n, ItemType::Weapon2H.slot());
        if let Some((items, f, q)) = fill(p, n) {
            lemma_pair_attempt_fails_empty(q, f);
            lemma_take(q, ItemType::Weapon1HOrShield, f);
            lemma_take(pair_attempt(q, f).1, ItemType::Weapon2H, f);
        }
    }
}

proof fn lemma_fill_stays_failed(p: Pools, n: nat, m: nat)
    requires
        n <= m,
        fill(p, n) is None,
    ensures
        fill(p, m) is None,
    decreases m - n,
{
    if n < m {
        lemma_fill_stays_failed(p, n, (m - 1) as nat);
    }
}

fn body_slot(i: usize) -> (r: ItemType)
    requires
        i < BODY_SLOT_COUNT,
    ensures
        r == body_slots()[i as int],
{
    if i == 0 {
        ItemType::Amulet
    } else if i == 1 {
        ItemType::Belt
    } else if i == 2 {
        ItemType::Body
    } else if i == 3 {
        ItemType::Boots
    } else if i == 4 {
        ItemType::Gloves
    } else if i == 5 {
        ItemType::Helmet
    } else {
        ItemType::Ring
    }
}

/// Draws recipe bundles one at a time from a classified inventory. The
/// inventory itself is never changed: the generator keeps, for each type, how
/// many items of each tier it has drawn.
pub struct ChaosListGenerator<'a> {
    stash_items: &'a RecipeSet,
    cursors: Vec<(usize, usize)>,
}

impl<'a> View for ChaosListGenerator<'a> {
    type V = Pools;

    /// The items not drawn yet.
    closed spec fn view(&self) -> Pools {
        Seq::new(
            ITEM_TYPE_COUNT as nat,
            |i: int|
                (
                    self.stash_items@[i].0.skip(self.cursors@[i].0 as int),
                    self.stash_items@[i].1.skip(self.cursors@[i].1 as int),
                ),
        )
    }
}

impl<'a> ChaosListGenerator<'a> {
    /// One cursor per item type, none past the end of its lists.
    pub closed spec fn wf(&self) -> bool {
        &&& self.stash_items@.len() == ITEM_TYPE_COUNT
        &&& self.cursors@.len() == ITEM_TYPE_COUNT
        &&& forall|i: int|
            0 <= i < ITEM_TYPE_COUNT ==> (#[trigger] self.cursors@[i]).0 <= self.stash_items@[i].0.len()
                && self.cursors@[i].1 <= self.stash_items@[i].1.len()
    }

    /// A generator that has drawn nothing from `map` yet.
    pub fn new(map: &'a RecipeSet) -> (r: Self)
        ensures
            r.wf(),
            r@ == map@,
    {
        proof {
            use_type_invariant(map);
        }
        let mut cursors: Vec<(usize, usize)> = Vec::new();
        let mut k: usize = 0;
        while k < ITEM_TYPE_COUNT
            invariant
                k <= ITEM_TYPE_COUNT,
                cursors@.len() == k,
                forall|i: int| 0 <= i < k ==> #[trigger] cursors@[i] == (0usize, 0usize),
            decreases ITEM_TYPE_COUNT - k,
        {
            cursors.push((0, 0));
            k = k + 1;
        }
        let r = ChaosListGenerator { stash_items: map, cursors };
        assert forall|i: int| 0 <= i < ITEM_TYPE_COUNT implies r@[i] == map@[i] by {
            assert(map@[i].0.skip(0) =~= map@[i].0);
            assert(map@[i].1.skip(0) =~= map@[i].1);
        }
        assert(r@ =~= map@);
        r
    }

    /// Draws from the part of `low` and `high` past `cursor` (see `take_from`)
    /// and gives the cursor moved past the item drawn.
    fn get_item(low: &Vec<Item>, high: &Vec<Item>, cursor: (usize, usize), prefer_high: bool) -> (r:
        Option<(Item, Tier, (usize, usize))>)
        requires
            cursor.0 <= low@.len(),
            cursor.1 <= high@.len(),
        ensures
            match take_from(low@.skip(cursor.0 as int), high@.skip(cursor.1 as int), prefer_high) {
                None => r is None,
                Some((it, tier)) => r matches Some((it2, tier2, c)) && it2 == it && tier2 == tier && if tier
                    == Tier::Low {
                    c.0 == cursor.0 + 1 && c.1 == cursor.1
                } else {
                    c.0 == cursor.0 && c.1 == cursor.1 + 1
                },
            },
    {
        let (c_low, c_high) = cursor;
        let has_low = c_low < low.len();
        let has_high = c_high < high.len();
        if prefer_high && has_high {
            Some((high[c_high], Tier::High, (c_low, c_high + 1)))
        } else if has_low {
            Some((low[c_low], Tier::Low, (c_low + 1, c_high)))
        } else if has_high {
            Some((high[c_high], Tier::High, (c_low, c_high + 1)))
        } else {
            None
        }
    }

    /// Draws the next item of type `t` (see `take`).
    fn get_item_by_type(&mut self, t: ItemType, prefer_high: bool) -> (r: Option<(Item, Tier)>)
        requires
            old(self).wf(),
        ensures
            final(self).wf(),
            final(self).stash_items == old(self).stash_items,
            match take(old(self)@, t, prefer_high) {
                None => r is None && final(self)@ == old(self)@,
                Some((it, tier, q)) => r == Some((it, tier)) && final(self)@ == q,
            },
    {
        let k = t.slot_index();
        let (low, high) = self.stash_items.tier_lists(t);
        let cursor = self.cursors[k];
        let ghost old_view = self@;
        match Self::get_item(low, high, cursor, prefer_high) {
            None => None,
            Some((it, tier, next)) => {
                self.cursors.set(k, next);
                proof {
                    let lo = self.stash_items@[k as int].0;
                    let hi = self.stash_items@[k as int].1;
                    if tier == Tier::Low {
                        assert(cursor.0 < lo.len());
                        assert(lo.skip(next.0 as int) =~= lo.skip(cursor.0 as int).drop_first());
                        assert(hi.skip(next.1 as int) =~= hi.skip(cursor.1 as int));
                    } else {
                        assert(cursor.1 < hi.len());
                        assert(lo.skip(next.0 as int) =~= lo.skip(cursor.0 as int));
                        assert(hi.skip(next.1 as int) =~= hi.skip(cursor.1 as int).drop_first());
                    }
                    let (_, _, q) = take(old_view, t, prefer_high)->0;
                    assert(self@ =~= q);
                }
                Some((it, tier))
            },
        }
    }

    /// Draws the weapon part of a bundle (see `take_weapons`).
    fn get_weapon_items(&mut self, prefer_high: bool) -> (r: Option<Vec<Item>>)
        requires
            old(self).wf(),
        ensures
            final(self).wf(),
            final(self).stash_items == old(self).stash_items,
            match take_weapons(old(self)@, prefer_high) {
                None => r is None,
                Some((ws, q)) => r matches Some(v) && v@ == ws && final(self)@ == q,
            },
            r is None ==> exhausted(final(self)@, ItemType::Weapon1HOrShield) && exhausted(
                final(self)@,
                ItemType::Weapon2H,
            ),
    {
        let w = ItemType::Weapon1HOrShield;
        let mut pair: Option<Vec<Item>> = None;
        let ghost p0 = self@;
        match self.get_item_by_type(w, prefer_high) {
            None => {},
            Some((a, ta)) => {
                if prefer_high {
                    match self.get_item_by_type(w, true) {
                        None => {},
                        Some((b, _)) => {
                            pair = Some(vec![a, b]);
                        },
                    }
                } else if ta == Tier::Low {
                    match self.get_item_by_type(w, true) {
                        None => {},
                        Some((b, _)) => {
                            pair = Some(vec![b, a]);
                        },
                    }
                } else {
                    match self.get_item_by_type(w, false) {
                        None => {},
                        Some((b, _)) => {
                            pair = Some(vec![a, b]);
                        },
                    }
                }
            },
        }
        proof {
            let (spec_pair, q) = pair_attempt(p0, prefer_high);
            lemma_pair_attempt_fails_empty(p0, prefer_high);
            lemma_take(q, ItemType::Weapon2H, prefer_high);
            assert(self@ == q);
            match spec_pair {
                Some(ws) => {
                    assert(pair matches Some(v) && v@ =~= ws);
                },
                None => {
                    assert(pair is None);
                },
            }
        }
        match pair {
            Some(ws) => Some(ws),
            None => match self.get_item_by_type(ItemType::Weapon2H, prefer_high) {
                None => None,
                Some((it, _)) => Some(vec![it]),
            },
        }
    }

    /// Draws the next bundle (see `next_bundle`); `None` once a slot cannot be
    /// filled.
    pub fn next(&mut self) -> (r: Option<Vec<Item>>)
        requires
            old(self).wf(),
        ensures
            final(self).wf(),
            match next_bundle(old(self)@) {
                None => r is None,
                Some((b, q)) => r matches Some(v) && v@ == b && final(self)@ == q,
            },
            r is None ==> next_bundle(final(self)@) is None,
    {
        let ghost p0 = self@;
        let mut items: Vec<Item> = Vec::new();
        let mut prefer_high = false;
        let mut i: usize = 0;
        while i < BODY_SLOT_COUNT
            invariant
                self.wf(),
                p0 == old(self)@,
                i <= BODY_SLOT_COUNT,
                fill(p0, i as nat) == Some((items@, prefer_high, self@)),
            decreases BODY_SLOT_COUNT - i,
        {
            let t = body_slot(i);
            match self.get_item_by_type(t, prefer_high) {
                None => {
                    proof {
                        assert(fill(p0, (i + 1) as nat) is None);
                        lemma_fill_stays_failed(p0, (i + 1) as nat, BODY_SLOT_COUNT as nat);
                        lemma_take(self@, t, prefer_high);
                        lemma_no_bundle_when_exhausted(self@, i as int);
                    }
                    return None;
                },
                Some((it, tier)) => {
                    items.push(it);
                    if tier == Tier::Low {
                        prefer_high = true;
                    }
                },
            }
            i = i + 1;
        }
        match self.get_weapon_items(prefer_high) {
            None => {
                proof {
                    lemma_no_bundle_when_exhausted(self@, 0);
                }
                None
            },
            Some(mut ws) => {
                items.append(&mut ws);
                Some(items)
            },
        }
    }
}

/// All the bundles that can be drawn from `map`, in the order they are drawn.
pub fn recipe_queue(map: &RecipeSet) -> (r: VecDeque<Vec<Item>>)
    ensures
        r@.map_values(|b: Vec<Item>| b@) == bundles_from(map@),
{
    let mut generator = ChaosListGenerator::new(map);
    let mut queue: VecDeque<Vec<Item>> = VecDeque::new();
    loop
        invariant_except_break
            queue@.map_values(|b: Vec<Item>| b@) + bundles_from(generator@) == bundles_from(map@),
        invariant
            generator.wf(),
        ensures
            queue@.map_values(|b: Vec<Item>| b@) == bundles_from(map@),
        decreases amulets(generator@),
    {
        let ghost before = generator@;
        proof {
            lemma_bundles_step(before);
            lemma_next_bundle_uses_one_amulet(before);
        }
        match generator.next() {
            None => {
                assert(queue@.map_values(|b: Vec<Item>| b@) + bundles_from(before)
                    =~= queue@.map_values(|b: Vec<Item>| b@));
                break;
            },
            Some(bundle) => {
                let ghost old_queue = queue@;
                queue.push_back(bundle);
                assert(queue@.map_values(|b: Vec<Item>| b@) =~= old_queue.map_values(
                    |b: Vec<Item>| b@,
                ).push(bundle@));
                assert(queue@.map_values(|b: Vec<Item>| b@) + bundles_from(generator@)
                    =~= old_queue.map_values(|b: Vec<Item>| b@) + bundles_from(before));
            },
        }
    }
    queue
}

} // verus!
