use chaos_helper::{recipe_queue, ChaosListGenerator, Item, ItemType, RawItem, RecipeSet, StashData};

fn raw(x: usize, y: usize, ilvl: usize, path: &str) -> RawItem {
    RawItem {
        w: 1,
        h: 1,
        x,
        y,
        ilvl,
        frame_type: 2,
        icon: format!("https://web.poecdn.com/image/Art/2DItems/{}", path),
    }
}

const AMULET: &str = "Amulets/Amulet1.png";
const BELT: &str = "Belts/Belt1.png";
const BODY: &str = "Armours/BodyArmours/Body1.png";
const BOOTS: &str = "Armours/Boots/Boots1.png";
const GLOVES: &str = "Armours/Gloves/Gloves1.png";
const HELMET: &str = "Armours/Helmets/Helmet1.png";
const RING: &str = "Rings/Ring1.png";
const ONE_HAND: &str = "Weapons/OneHandWeapons/Claws/Claw1.png";
const SHIELD: &str = "Armours/Shields/Shield1.png";
const TWO_HAND: &str = "Weapons/TwoHandWeapons/Staves/Staff1.png";
const USELESS: &str = "Armours/Unknown/Thing.png";

/// One of each non-weapon slot on row `y`, all at item level `ilvl`.
fn body_set(y: usize, ilvl: usize) -> Vec<RawItem> {
    vec![
        raw(0, y, ilvl, AMULET),
        raw(1, y, ilvl, BELT),
        raw(2, y, ilvl, BODY),
        raw(3, y, ilvl, BOOTS),
        raw(4, y, ilvl, GLOVES),
        raw(5, y, ilvl, HELMET),
        raw(6, y, ilvl, RING),
        raw(7, y, ilvl, RING),
    ]
}

fn classify(items: Vec<RawItem>) -> RecipeSet {
    RecipeSet::classify(&StashData { items, quad_layout: false }).unwrap()
}

fn types(bundle: &[Item]) -> Vec<ItemType> {
    bundle.iter().map(|i| i.itype).collect()
}

fn slots() -> Vec<ItemType> {
    vec![
        ItemType::Amulet,
        ItemType::Belt,
        ItemType::Body,
        ItemType::Boots,
        ItemType::Gloves,
        ItemType::Helmet,
        ItemType::Ring,
        ItemType::Ring,
    ]
}

#[test]
fn low_tier_bundle_with_one_hand_pair() {
    let mut items = body_set(0, 70);
    items.push(raw(8, 0, 70, ONE_HAND));
    items.push(raw(9, 0, 70, SHIELD));
    let set = classify(items);
    let mut generator = ChaosListGenerator::new(&set);
    let bundle = generator.next().unwrap();
    assert_eq!(bundle.len(), 10);
    let mut expected = slots();
    expected.push(ItemType::Weapon1HOrShield);
    expected.push(ItemType::Weapon1HOrShield);
    assert_eq!(types(&bundle), expected);
    assert_eq!(bundle[8].x, 8);
    assert_eq!(bundle[9].x, 9);
    assert_eq!(generator.next(), None);
}

#[test]
fn two_hand_bundle_has_nine_items() {
    let mut items = body_set(0, 80);
    items.push(raw(8, 0, 80, TWO_HAND));
    let set = classify(items);
    let queue = recipe_queue(&set);
    assert_eq!(queue.len(), 1);
    let bundle = &queue[0];
    assert_eq!(bundle.len(), 9);
    let mut expected = slots();
    expected.push(ItemType::Weapon2H);
    assert_eq!(types(bundle), expected);
}

#[test]
fn low_draw_makes_later_slots_prefer_high() {
    // Amulet only in the low tier: every later slot then takes its high item first.
    let mut items = vec![raw(0, 0, 70, AMULET)];
    for (x, path) in [BELT, BODY, BOOTS, GLOVES, HELMET, RING, RING].iter().enumerate() {
        items.push(raw(x + 1, 0, 70, path));
        items.push(raw(x + 1, 1, 80, path));
    }
    items.push(raw(8, 0, 80, TWO_HAND));
    let set = classify(items);
    let bundle = ChaosListGenerator::new(&set).next().unwrap();
    assert_eq!(bundle[0].ilvl, 70);
    for it in &bundle[1..8] {
        assert_eq!(it.ilvl, 80);
    }
}

#[test]
fn high_only_slots_keep_low_preference() {
    // No low item is drawn, so every slot keeps preferring the low tier.
    let mut items = body_set(0, 80);
    items.push(raw(1, 1, 70, BELT));
    items.push(raw(8, 0, 80, TWO_HAND));
    let set = classify(items);
    let bundle = ChaosListGenerator::new(&set).next().unwrap();
    assert_eq!(bundle[0].ilvl, 80);
    assert_eq!(bundle[1].ilvl, 70);
    assert_eq!(bundle[1].y, 1);
}

#[test]
fn mixed_pair_puts_high_item_first() {
    // All slots high: the weapon pick prefers low, then pairs it with a high one.
    let mut items = body_set(0, 80);
    items.push(raw(8, 0, 70, ONE_HAND));
    items.push(raw(9, 0, 80, SHIELD));
    let set = classify(items);
    let bundle = ChaosListGenerator::new(&set).next().unwrap();
    assert_eq!(bundle.len(), 10);
    assert_eq!(bundle[8].x, 9);
    assert_eq!(bundle[8].ilvl, 80);
    assert_eq!(bundle[9].x, 8);
    assert_eq!(bundle[9].ilvl, 70);
}

#[test]
fn high_only_one_hand_items_make_a_pair() {
    // No low one-handed item is left: the second pick falls back to the high tier.
    let mut items = body_set(0, 80);
    items.push(raw(8, 0, 80, ONE_HAND));
    items.push(raw(9, 0, 80, SHIELD));
    items.push(raw(10, 0, 80, TWO_HAND));
    let set = classify(items);
    let mut generator = ChaosListGenerator::new(&set);
    let bundle = generator.next().unwrap();
    assert_eq!(bundle.len(), 10);
    assert_eq!(bundle[8].x, 8);
    assert_eq!(bundle[9].x, 9);
    assert_eq!(bundle[8].itype, ItemType::Weapon1HOrShield);
    assert_eq!(bundle[9].itype, ItemType::Weapon1HOrShield);
    assert_eq!(generator.next(), None);
}

#[test]
fn single_high_one_hand_falls_back_to_two_hand() {
    let mut items = body_set(0, 80);
    items.push(raw(8, 0, 80, ONE_HAND));
    items.push(raw(10, 0, 80, TWO_HAND));
    let set = classify(items);
    let bundle = ChaosListGenerator::new(&set).next().unwrap();
    assert_eq!(bundle.len(), 9);
    assert_eq!(bundle[8].itype, ItemType::Weapon2H);
    assert_eq!(bundle[8].x, 10);
}

#[test]
fn ended_generator_stays_ended() {
    let mut items = body_set(0, 70);
    items.push(raw(8, 0, 70, TWO_HAND));
    items.extend(body_set(1, 70));
    let set = classify(items);
    let mut generator = ChaosListGenerator::new(&set);
    assert!(generator.next().is_some());
    assert!(generator.next().is_none());
    assert!(generator.next().is_none());
}

#[test]
fn missing_slot_yields_nothing() {
    let mut items = body_set(0, 70);
    items.retain(|r| !r.icon.contains("Gloves"));
    items.push(raw(8, 0, 70, TWO_HAND));
    let set = classify(items);
    assert!(recipe_queue(&set).is_empty());
}

#[test]
fn missing_weapon_yields_nothing() {
    let set = classify(body_set(0, 70));
    assert!(ChaosListGenerator::new(&set).next().is_none());
}

#[test]
fn empty_inventory_yields_nothing() {
    assert!(recipe_queue(&RecipeSet::new()).is_empty());
}

#[test]
fn useless_items_are_never_drawn() {
    let mut items = body_set(0, 70);
    items.push(raw(8, 0, 70, TWO_HAND));
    items.push(raw(9, 0, 70, USELESS));
    let set = classify(items);
    let queue = recipe_queue(&set);
    assert_eq!(queue.len(), 1);
    assert!(queue[0].iter().all(|i| i.itype != ItemType::Useless));
}

#[test]
fn regenerating_gives_the_same_sequence() {
    let mut items = body_set(0, 70);
    items.extend(body_set(1, 80));
    items.extend(body_set(2, 65));
    items.push(raw(8, 0, 70, TWO_HAND));
    items.push(raw(8, 1, 80, ONE_HAND));
    items.push(raw(9, 1, 70, SHIELD));
    items.push(raw(8, 2, 80, TWO_HAND));
    let set = classify(items.clone());
    let again = classify(items);
    let first = recipe_queue(&set);
    let second = recipe_queue(&again.clone());
    assert_eq!(first.len(), 3);
    assert_eq!(first, second);
}

#[test]
fn items_are_never_reused() {
    let mut items = body_set(0, 70);
    items.extend(body_set(1, 80));
    items.extend(body_set(2, 75));
    items.push(raw(8, 0, 70, TWO_HAND));
    items.push(raw(8, 1, 80, TWO_HAND));
    items.push(raw(9, 1, 62, ONE_HAND));
    let set = classify(items);
    let queue = recipe_queue(&set);
    assert_eq!(queue.len(), 2);
    let mut seen = std::collections::HashSet::new();
    for bundle in &queue {
        for it in bundle {
            assert!(seen.insert((it.x, it.y)), "item at {:?} used twice", (it.x, it.y));
        }
    }
}

#[test]
fn generator_does_not_change_the_inventory() {
    let mut items = body_set(0, 70);
    items.push(raw(8, 0, 70, TWO_HAND));
    let set = classify(items);
    let before = set.clone();
    let _ = recipe_queue(&set);
    assert_eq!(set, before);
    assert_eq!(set.counts(ItemType::Amulet), (1, 0));
}
