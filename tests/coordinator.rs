use chaos_helper::{Coordinator, HelperError, ItemType, RawItem, RecipeSet, ResponseFromNetwork, StashData};

fn raw(x: usize, y: usize, ilvl: usize, path: &str) -> RawItem {
    RawItem {
        w: 1,
        h: 1,
        x,
        y,
        ilvl,
        frame_type: 2,
        icon: format!("https://web.poecdn.com/image/Art/2DItems/{}", path),
    }
}

/// `sets` complete two-handed bundles, one per row.
fn snapshot(sets: usize, quad_layout: bool) -> StashData {
    let mut items = Vec::new();
    for y in 0..sets {
        for (x, path) in [
            "Amulets/Amulet1.png",
            "Belts/Belt1.png",
            "Armours/BodyArmours/Body1.png",
            "Armours/Boots/Boots1.png",
            "Armours/Gloves/Gloves1.png",
            "Armours/Helmets/Helmet1.png",
            "Rings/Ring1.png",
            "Rings/Ring1.png",
            "Weapons/TwoHandWeapons/Staves/Staff1.png",
        ]
        .iter()
        .enumerate()
        {
            items.push(raw(x, y, 70, path));
        }
    }
    StashData { items, quad_layout }
}

fn status(c: &mut Coordinator, fetched: Vec<Result<StashData, HelperError>>) -> (bool, (RecipeSet, usize)) {
    match c.request_status(fetched) {
        (start, Ok(ResponseFromNetwork::StashStatus(s))) => (start, s),
        other => panic!("unexpected reply {:?}", other),
    }
}

fn bundle(c: &mut Coordinator) -> (Vec<chaos_helper::Item>, bool) {
    match c.request_bundle() {
        ResponseFromNetwork::ChaosRecipe(b) => b,
        other => panic!("unexpected reply {:?}", other),
    }
}

#[test]
fn empty_queue_gives_empty_bundle() {
    let mut c = Coordinator::new();
    assert_eq!(c.request_bundle(), ResponseFromNetwork::ChaosRecipe((vec![], false)));
    assert_eq!(c.request_bundle(), ResponseFromNetwork::ChaosRecipe((vec![], false)));
}

#[test]
fn empty_queue_keeps_last_double_stash_flag() {
    let mut c = Coordinator::new();
    let _ = status(&mut c, vec![Ok(snapshot(1, true))]);
    let (items, quad) = bundle(&mut c);
    assert_eq!(items.len(), 9);
    assert!(quad);
    assert_eq!(c.request_bundle(), ResponseFromNetwork::ChaosRecipe((vec![], true)));
    assert!(c.is_double_stash());
}

#[test]
fn fresh_snapshot_rebuilds_queue() {
    let mut c = Coordinator::new();
    let (start, (set, total)) = status(&mut c, vec![Ok(snapshot(2, false))]);
    assert!(start);
    assert_eq!(total, 2);
    assert_eq!(set.counts(ItemType::Amulet), (2, 0));
    let (first, _) = bundle(&mut c);
    let (second, _) = bundle(&mut c);
    assert_eq!(first[0].y, 0);
    assert_eq!(second[0].y, 1);
    assert_eq!(bundle(&mut c).0.len(), 0);
}

#[test]
fn total_is_not_decremented_by_bundles() {
    let mut c = Coordinator::new();
    let _ = status(&mut c, vec![Ok(snapshot(2, false))]);
    let _ = bundle(&mut c);
    let (_, (_, total)) = status(&mut c, vec![]);
    assert_eq!(total, 2);
}

#[test]
fn status_twice_without_fetch_is_stable() {
    let mut c = Coordinator::new();
    let (_, first) = status(&mut c, vec![Ok(snapshot(1, false))]);
    let (_, second) = status(&mut c, vec![]);
    let (_, third) = status(&mut c, vec![]);
    assert_eq!(first, second);
    assert_eq!(second, third);
}

#[test]
fn pending_refresh_is_not_started_twice() {
    let mut c = Coordinator::new();
    let (first, _) = status(&mut c, vec![]);
    let (second, _) = status(&mut c, vec![]);
    let (third, _) = status(&mut c, vec![]);
    assert!(first);
    assert!(!second);
    assert!(!third);
    let (after_result, _) = status(&mut c, vec![Ok(snapshot(0, false))]);
    assert!(after_result);
}

#[test]
fn only_latest_result_counts() {
    let mut c = Coordinator::new();
    let (_, (_, total)) = status(&mut c, vec![Ok(snapshot(3, false)), Ok(snapshot(1, false))]);
    assert_eq!(total, 1);
    let (_, (_, total)) = status(&mut c, vec![Err(HelperError::TransportFailure("x".to_string())), Ok(snapshot(2, false))]);
    assert_eq!(total, 2);
}

#[test]
fn identical_snapshot_keeps_partly_used_queue() {
    let mut c = Coordinator::new();
    let _ = status(&mut c, vec![Ok(snapshot(2, false))]);
    let (first, _) = bundle(&mut c);
    assert_eq!(first[0].y, 0);
    let (_, (_, total)) = status(&mut c, vec![Ok(snapshot(2, true))]);
    assert_eq!(total, 2);
    let (second, quad) = bundle(&mut c);
    assert_eq!(second[0].y, 1);
    assert!(quad);
    assert_eq!(bundle(&mut c).0.len(), 0);
}

#[test]
fn transport_failure_is_reported_and_cache_kept() {
    let mut c = Coordinator::new();
    let (_, before) = status(&mut c, vec![Ok(snapshot(1, false))]);
    let err = HelperError::TransportFailure("401 Unauthorized".to_string());
    let (start, reply) = c.request_status(vec![Err(err.clone())]);
    assert!(start);
    assert_eq!(reply, Err(err));
    let (_, after) = status(&mut c, vec![]);
    assert_eq!(before, after);
    assert_eq!(bundle(&mut c).0.len(), 9);
}

#[test]
fn malformed_snapshot_is_reported_and_cache_kept() {
    let mut c = Coordinator::new();
    let (_, before) = status(&mut c, vec![Ok(snapshot(1, false))]);
    let mut bad = snapshot(2, true);
    bad.items[3].icon = "broken".to_string();
    let (_, reply) = c.request_status(vec![Ok(bad)]);
    assert_eq!(reply, Err(HelperError::MalformedIdentifier("broken".to_string())));
    let (_, after) = status(&mut c, vec![]);
    assert_eq!(before, after);
    assert!(!c.is_double_stash());
}
