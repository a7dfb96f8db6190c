use crate::error::HelperError;
use crate::item::{
    icon_type, item_type_from_icon, StashData, type_at, type_at_index, Item, ItemType, RawItem, HIGH_TIER_LEVEL, ITEM_TYPE_COUNT,
    MIN_ITEM_LEVEL, QUALIFYING_FRAME_TYPE,
};
use vstd::prelude::*;

verus! {

broadcast use vstd::seq_lib::group_seq_properties;

/// Per-type pools of items: entry `t.slot()` holds the low-tier and the high-tier
/// list of type `t`.
pub type Pools = Seq<(Seq<Item>, Seq<Item>)>;

/// Item level and rarity let the item take part in a recipe.
pub open spec fn eligible(it: Item) -> bool {
    it.frame_type == QUALIFYING_FRAME_TYPE && it.ilvl >= MIN_ITEM_LEVEL
}

/// The item belongs in the low-tier list of type `t`.
pub open spec fn fits_low(it: Item, t: ItemType) -> bool {
    eligible(it) && it.itype == t && it.ilvl < HIGH_TIER_LEVEL
}

/// The item belongs in the high-tier list of type `t`.
pub open spec fn fits_high(it: Item, t: ItemType) -> bool {
    eligible(it) && it.itype == t && it.ilvl >= HIGH_TIER_LEVEL
}

pub open spec fn low_pred(t: ItemType) -> spec_fn(Item) -> bool {
    |it: Item| fits_low(it, t)
}

pub open spec fn high_pred(t: ItemType) -> spec_fn(Item) -> bool {
    |it: Item| fits_high(it, t)
}

/// The classified inventory of a sequence of typed items: for each type, its
/// eligible items of each tier, in snapshot order.
pub open spec fn pools_of(items: Seq<Item>) -> Pools {
    Seq::new(
        ITEM_TYPE_COUNT as nat,
        |i: int| (items.filter(low_pred(type_at(i))), items.filter(high_pred(type_at(i)))),
    )
}

/// Every list sits under its own type and holds only items of its tier.
pub open spec fn pools_valid(p: Pools) -> bool {
    &&& p.len() == ITEM_TYPE_COUNT
    &&& forall|i: int, j: int|
        0 <= i < ITEM_TYPE_COUNT && 0 <= j < p[i].0.len() ==> fits_low(#[trigger] p[i].0[j], type_at(i))
    &&& forall|i: int, j: int|
        0 <= i < ITEM_TYPE_COUNT && 0 <= j < p[i].1.len() ==> fits_high(#[trigger] p[i].1[j], type_at(i))
}

/// The item that a raw record describes, once its type is known.
pub open spec fn typed(raw: RawItem, t: ItemType) -> Item {
    Item { w: raw.w, h: raw.h, x: raw.x, y: raw.y, ilvl: raw.ilvl, frame_type: raw.frame_type, itype: t }
}

/// Every record of the snapshot has a well-formed identifier.
pub open spec fn all_icons_valid(raw: Seq<RawItem>) -> bool {
    forall|i: int| 0 <= i < raw.len() ==> (#[trigger] icon_type(raw[i].icon@)) is Some
}

/// The typed items of a snapshot whose identifiers are all well-formed.
pub open spec fn typed_items(raw: Seq<RawItem>) -> Seq<Item> {
    Seq::new(raw.len(), |i: int| typed(raw[i], icon_type(raw[i].icon@)->0))
}

/// `e` reports the first record of `raw` whose identifier is malformed.
pub open spec fn reports_first_malformed(raw: Seq<RawItem>, e: HelperError) -> bool {
    exists|i: int|
        {
            &&& 0 <= i < raw.len()
            &&& (#[trigger] icon_type(raw[i].icon@)) is None
            &&& forall|j: int| 0 <= j < i ==> (#[trigger] icon_type(raw[j].icon@)) is Some
            &&& e matches HelperError::MalformedIdentifier(s) && s@ == raw[i].icon@
        }
}

/// The classified inventory of a snapshot, or `None` when one of its
/// identifiers is malformed.
pub open spec fn classified(raw: Seq<RawItem>) -> Option<Pools> {
    if all_icons_valid(raw) {
        Some(pools_of(typed_items(raw)))
    } else {
        None
    }
}

/// The low-tier and high-tier lists of one item type.
#[derive(Debug)]
struct TierLists {
    low: Vec<Item>,
    high: Vec<Item>,
}

/// The classified inventory: for each item type, its low-tier list (item level
/// below 75) and its high-tier list, each in snapshot order.
///
/// Every type has an entry, possibly with two empty lists, so the inventory is
/// a table indexed by `ItemType::slot` rather than a map keyed by the type: a
/// missing key and an empty entry mean the same here, and with a table two
/// inventories are equal exactly when their lists are.
#[derive(Debug)]
pub struct RecipeSet {
    lists: Vec<TierLists>,
}

impl View for RecipeSet {
    type V = Pools;

    closed spec fn view(&self) -> Pools {
        self.lists@.map_values(|l: TierLists| (l.low@, l.high@))
    }
}

fn same_items(a: &Vec<Item>, b: &Vec<Item>) -> (r: bool)
    ensures
        r == (a@ == b@),
{
    if a.len() != b.len() {
        return false;
    }
    let mut i: usize = 0;
    while i < a.len()
        invariant
            a@.len() == b@.len(),
            i <= a@.len(),
            forall|j: int| 0 <= j < i ==> a@[j] == b@[j],
        decreases a@.len() - i,
    {
        if a[i] != b[i] {
            return false;
        }
        i = i + 1;
    }
    assert(a@ =~= b@);
    true
}

fn copy_items(a: &Vec<Item>) -> (r: Vec<Item>)
    ensures
        r@ == a@,
{
    let mut r: Vec<Item> = Vec::new();
    let mut i: usize = 0;
    while i < a.len()
        invariant
            i <= a@.len(),
            r@ == a@.subrange(0, i as int),
        decreases a@.len() - i,
    {
        r.push(a[i]);
        i = i + 1;
        assert(r@ =~= a@.subrange(0, i as int));
    }
    assert(a@.subrange(0, a@.len() as int) =~= a@);
    r
}

/// Keeps the items of `items` that `fits_low(_, t)` (when `high` is false) or
/// `fits_high(_, t)` (when it is true), in order.
fn select_tier(items: &Vec<Item>, t: ItemType, high: bool) -> (r: Vec<Item>)
    ensures
        r@ == items@.filter(if high { high_pred(t) } else { low_pred(t) }),
{
    let ghost pred = if high { high_pred(t) } else { low_pred(t) };
    let mut r: Vec<Item> = Vec::new();
    let mut i: usize = 0;
    while i < items.len()
        invariant
            i <= items@.len(),
            pred == (if high { high_pred(t) } else { low_pred(t) }),
            r@ == items@.subrange(0, i as int).filter(pred),
        decreases items@.len() - i,
    {
        let it = items[i];
        let keep = it.frame_type == QUALIFYING_FRAME_TYPE && it.ilvl >= MIN_ITEM_LEVEL && it.itype
            == t && (if high {
            it.ilvl >= HIGH_TIER_LEVEL
        } else {
            it.ilvl < HIGH_TIER_LEVEL
        });
        proof {
            assert(items@.subrange(0, i + 1) =~= items@.subrange(0, i as int).push(it));
            items@.subrange(0, i as int).lemma_filter_push(it, pred);
        }
        if keep {
            r.push(it);
        }
        i = i + 1;
    }
    assert(items@.subrange(0, items@.len() as int) =~= items@);
    r
}

impl RecipeSet {
    #[verifier::type_invariant]
    pub open spec fn inv(self) -> bool {
        pools_valid(self@)
    }

    /// An inventory with no items.
    pub fn new() -> (r: RecipeSet)
        ensures
            r@ == pools_of(Seq::empty()),
    {
        let typed: Vec<Item> = Vec::new();
        Self::from_items(&typed)
    }

    /// Sorts typed items into the per-type, per-tier lists, keeping their order
    /// and dropping the items that are not eligible.
    pub fn from_items(items: &Vec<Item>) -> (r: RecipeSet)
        ensures
            r@ == pools_of(items@),
    {
        let mut lists: Vec<TierLists> = Vec::new();
        let mut k: usize = 0;
        while k < ITEM_TYPE_COUNT
            invariant
                k <= ITEM_TYPE_COUNT,
                lists@.len() == k,
                forall|i: int|
                    0 <= i < k ==> (#[trigger] lists@[i]).low@ == items@.filter(low_pred(type_at(i)))
                        && lists@[i].high@ == items@.filter(high_pred(type_at(i))),
            decreases ITEM_TYPE_COUNT - k,
        {
            let t = type_at_index(k);
            let low = select_tier(items, t, false);
            let high = select_tier(items, t, true);
            lists.push(TierLists { low, high });
            k = k + 1;
        }
        let r = RecipeSet { lists };
        assert(r@ =~= pools_of(items@));
        r
    }

    /// Classifies a snapshot: derives each record's type from its identifier,
    /// then sorts the eligible items by type and tier. A single malformed
    /// identifier fails the whole snapshot.
    pub fn classify(data: &StashData) -> (r: Result<RecipeSet, HelperError>)
        ensures
            match r {
                Ok(set) => classified(data.items@) == Some(set@),
                Err(e) => classified(data.items@) is None && reports_first_malformed(
                    data.items@,
                    e,
                ),
            },
    {
        let raw = &data.items;
        let mut items: Vec<Item> = Vec::new();
        let mut i: usize = 0;
        while i < raw.len()
            invariant
                raw@ == data.items@,
                i <= raw@.len(),
                forall|j: int| 0 <= j < i ==> (#[trigger] icon_type(raw@[j].icon@)) is Some,
                items@ == typed_items(raw@).subrange(0, i as int),
            decreases raw@.len() - i,
        {
            let rec = &raw[i];
            match item_type_from_icon(rec.icon.as_str()) {
                Ok(t) => {
                    items.push(
                        Item {
                            w: rec.w,
                            h: rec.h,
                            x: rec.x,
                            y: rec.y,
                            ilvl: rec.ilvl,
                            frame_type: rec.frame_type,
                            itype: t,
                        },
                    );
                },
                Err(e) => {
                    assert(icon_type(raw@[i as int].icon@) is None);
                    assert(reports_first_malformed(raw@, e));
                    assert(!all_icons_valid(raw@));
                    return Err(e);
                },
            }
            i = i + 1;
            assert(items@ =~= typed_items(raw@).subrange(0, i as int));
        }
        assert(typed_items(raw@).subrange(0, raw@.len() as int) =~= typed_items(raw@));
        Ok(Self::from_items(&items))
    }

    /// The low-tier and the high-tier list of type `t`.
    pub fn tier_lists(&self, t: ItemType) -> (r: (&Vec<Item>, &Vec<Item>))
        ensures
            r.0@ == self@[t.slot()].0,
            r.1@ == self@[t.slot()].1,
    {
        proof {
            use_type_invariant(self);
        }
        let l = &self.lists[t.slot_index()];
        (&l.low, &l.high)
    }

    /// How many items of type `t` each tier holds.
    pub fn counts(&self, t: ItemType) -> (r: (usize, usize))
        ensures
            r.0 == self@[t.slot()].0.len(),
            r.1 == self@[t.slot()].1.len(),
    {
        let (low, high) = self.tier_lists(t);
        (low.len(), high.len())
    }
}

impl Clone for RecipeSet {
    fn clone(&self) -> (r: Self)
        ensures
            r@ == self@,
    {
        proof {
            use_type_invariant(self);
        }
        let mut lists: Vec<TierLists> = Vec::new();
        let mut k: usize = 0;
        while k < self.lists.len()
            invariant
                k <= self.lists@.len(),
                lists@.len() == k,
                forall|i: int|
                    0 <= i < k ==> (#[trigger] lists@[i]).low@ == self.lists@[i].low@
                        && lists@[i].high@ == self.lists@[i].high@,
            decreases self.lists@.len() - k,
        {
            let l = &self.lists[k];
            lists.push(TierLists { low: copy_items(&l.low), high: copy_items(&l.high) });
            k = k + 1;
        }
        assert(lists@.map_values(|l: TierLists| (l.low@, l.high@)) =~= self@);
        let r = RecipeSet { lists };
        assert(r@ =~= self@);
        r
    }
}

impl PartialEq for RecipeSet {
    fn eq(&self, other: &RecipeSet) -> (r: bool) {
        proof {
            use_type_invariant(self);
            use_type_invariant(other);
        }
        let mut k: usize = 0;
        while k < self.lists.len()
            invariant
                k <= self.lists@.len(),
                self.lists@.len() == other.lists@.len(),
                forall|i: int| 0 <= i < k ==> (#[trigger] self@[i]) == other@[i],
            decreases self.lists@.len() - k,
        {
            let a = &self.lists[k];
            let b = &other.lists[k];
            if !same_items(&a.low, &b.low) || !same_items(&a.high, &b.high) {
                assert(self@[k as int] != other@[k as int]);
                return false;
            }
            k = k + 1;
        }
        assert(self@ =~= other@);
        true
    }
}

impl vstd::std_specs::cmp::PartialEqSpecImpl for RecipeSet {
    open spec fn obeys_eq_spec() -> bool {
        true
    }

    open spec fn eq_spec(&self, other: &RecipeSet) -> bool {
        self@ == other@
    }
}

impl Eq for RecipeSet {

}

} // verus!
