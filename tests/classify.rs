use chaos_helper::{item_type_from_icon, item_type_from_parts, HelperError, ItemType, RawItem, RecipeSet, StashData};

const PREFIX: &str = "https://web.poecdn.com/image/Art";

fn icon(path: &str) -> String {
    format!("{}/2DItems/{}", PREFIX, path)
}

fn raw(x: usize, ilvl: usize, frame_type: usize, path: &str) -> RawItem {
    RawItem { w: 1, h: 2, x, y: 0, ilvl, frame_type, icon: icon(path) }
}

fn parts(a: &str, b: &str) -> ItemType {
    item_type_from_parts(&a.to_string(), &b.to_string())
}

#[test]
fn rule_table_armours() {
    assert_eq!(parts("Armours", "Boots"), ItemType::Boots);
    assert_eq!(parts("Armours", "Helmets"), ItemType::Helmet);
    assert_eq!(parts("Armours", "Gloves"), ItemType::Gloves);
    assert_eq!(parts("Armours", "BodyArmours"), ItemType::Body);
    assert_eq!(parts("Armours", "Shields"), ItemType::Weapon1HOrShield);
}

#[test]
fn rule_table_weapons_and_jewellery() {
    assert_eq!(parts("Weapons", "OneHandWeapons"), ItemType::Weapon1HOrShield);
    assert_eq!(parts("Weapons", "TwoHandWeapons"), ItemType::Weapon2H);
    assert_eq!(parts("Weapons", "Bows"), ItemType::Weapon2H);
    assert_eq!(parts("Amulets", "Amulet3"), ItemType::Amulet);
    assert_eq!(parts("Rings", "Ring1"), ItemType::Ring);
    assert_eq!(parts("Belts", "Belt2"), ItemType::Belt);
}

#[test]
fn rule_table_unrecognized_is_useless() {
    assert_eq!(parts("Armours", "Unknown"), ItemType::Useless);
    assert_eq!(parts("Weapons", "Quivers"), ItemType::Useless);
    assert_eq!(parts("Currency", "Orb"), ItemType::Useless);
}

#[test]
fn icon_path_is_parsed() {
    assert_eq!(item_type_from_icon(&icon("Weapons/Bows/Bow1.png")), Ok(ItemType::Weapon2H));
    assert_eq!(
        item_type_from_icon(&icon("Weapons/TwoHandWeapons/Staves/Staff1.png")),
        Ok(ItemType::Weapon2H)
    );
    assert_eq!(item_type_from_icon(&icon("Amulets/Amulet1.png")), Ok(ItemType::Amulet));
    assert_eq!(item_type_from_icon(&icon("Armours/Helmets/Helmet4.png")), Ok(ItemType::Helmet));
    assert_eq!(item_type_from_icon(&icon("Armours/Unknown/Thing.png")), Ok(ItemType::Useless));
}

#[test]
fn malformed_icon_is_an_error() {
    let bad = "https://web.poecdn.com/image/Art/Items/Bow.png";
    assert_eq!(item_type_from_icon(bad), Err(HelperError::MalformedIdentifier(bad.to_string())));
    assert_eq!(
        item_type_from_icon("/2DItems/Amulets"),
        Err(HelperError::MalformedIdentifier("/2DItems/Amulets".to_string()))
    );
}

#[test]
fn bow_tiers_by_item_level() {
    let data = StashData {
        items: vec![
            raw(0, 74, 2, "Weapons/Bows/Bow1.png"),
            raw(1, 75, 2, "Weapons/Bows/Bow1.png"),
            raw(2, 59, 2, "Weapons/Bows/Bow1.png"),
        ],
        quad_layout: false,
    };
    let set = RecipeSet::classify(&data).unwrap();
    let (low, high) = set.tier_lists(ItemType::Weapon2H);
    assert_eq!(low.len(), 1);
    assert_eq!(low[0].x, 0);
    assert_eq!(low[0].ilvl, 74);
    assert_eq!(high.len(), 1);
    assert_eq!(high[0].x, 1);
    assert_eq!(high[0].ilvl, 75);
    assert_eq!(set.counts(ItemType::Weapon2H), (1, 1));
}

#[test]
fn level_59_is_dropped_whatever_its_type() {
    let data = StashData {
        items: vec![raw(0, 59, 2, "Amulets/Amulet1.png"), raw(1, 59, 2, "Armours/Unknown/X.png")],
        quad_layout: false,
    };
    let set = RecipeSet::classify(&data).unwrap();
    assert_eq!(set, RecipeSet::new());
}

#[test]
fn non_unique_rarity_is_dropped() {
    let data = StashData {
        items: vec![raw(0, 80, 1, "Amulets/Amulet1.png"), raw(1, 80, 3, "Rings/Ring1.png")],
        quad_layout: false,
    };
    let set = RecipeSet::classify(&data).unwrap();
    assert_eq!(set.counts(ItemType::Amulet), (0, 0));
    assert_eq!(set.counts(ItemType::Ring), (0, 0));
}

#[test]
fn unknown_armour_is_useless_and_kept() {
    let data = StashData { items: vec![raw(0, 70, 2, "Armours/Unknown/Thing.png")], quad_layout: false };
    let set = RecipeSet::classify(&data).unwrap();
    assert_eq!(set.counts(ItemType::Useless), (1, 0));
    assert_eq!(set.tier_lists(ItemType::Useless).0[0].itype, ItemType::Useless);
}

#[test]
fn order_of_the_snapshot_is_kept() {
    let data = StashData {
        items: vec![
            raw(5, 70, 2, "Rings/Ring1.png"),
            raw(3, 80, 2, "Rings/Ring1.png"),
            raw(1, 65, 2, "Rings/Ring1.png"),
            raw(7, 90, 2, "Rings/Ring1.png"),
        ],
        quad_layout: false,
    };
    let set = RecipeSet::classify(&data).unwrap();
    let (low, high) = set.tier_lists(ItemType::Ring);
    assert_eq!(low.iter().map(|i| i.x).collect::<Vec<_>>(), vec![5, 1]);
    assert_eq!(high.iter().map(|i| i.x).collect::<Vec<_>>(), vec![3, 7]);
}

#[test]
fn one_malformed_record_fails_the_snapshot() {
    let bad = "https://example.com/nothing.png".to_string();
    let data = StashData {
        items: vec![
            raw(0, 70, 2, "Rings/Ring1.png"),
            RawItem { w: 1, h: 1, x: 1, y: 0, ilvl: 10, frame_type: 0, icon: bad.clone() },
            RawItem { w: 1, h: 1, x: 2, y: 0, ilvl: 10, frame_type: 0, icon: "also bad".to_string() },
        ],
        quad_layout: false,
    };
    assert_eq!(RecipeSet::classify(&data), Err(HelperError::MalformedIdentifier(bad)));
}

#[test]
fn empty_snapshot_gives_empty_inventory() {
    let data = StashData { items: vec![], quad_layout: true };
    let set = RecipeSet::classify(&data).unwrap();
    assert_eq!(set, RecipeSet::new());
    assert_eq!(set.counts(ItemType::Belt), (0, 0));
}

#[test]
fn clone_and_equality() {
    let data = StashData { items: vec![raw(0, 70, 2, "Rings/Ring1.png")], quad_layout: false };
    let set = RecipeSet::classify(&data).unwrap();
    let copy = set.clone();
    assert_eq!(copy, set);
    assert_ne!(copy, RecipeSet::new());
}
