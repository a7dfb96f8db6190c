use chaos_helper::{calc_cell_size, get_item_rect, set_account, AccountData, WindowRect};

#[test]
fn default_rect_is_the_stash_area() {
    assert_eq!(WindowRect::default(), WindowRect { left: 17, top: 162, right: 649, bottom: 794 });
}

#[test]
fn cell_size_of_a_window() {
    assert_eq!(calc_cell_size(632, 632), (26, 26));
    assert_eq!(calc_cell_size(8, 32), (0, 1));
    assert_eq!(calc_cell_size(5, 0), (0, 0));
}

#[test]
fn item_rect_on_a_normal_tab() {
    // A normal tab is drawn on a grid twice as fine.
    let r = get_item_rect(1, 2, 1, 3, 26, 26, false);
    assert_eq!(r, WindowRect { left: 52, top: 105, right: 105, bottom: 263 });
}

#[test]
fn item_rect_on_a_double_tab() {
    let r = get_item_rect(3, 0, 2, 1, 26, 26, true);
    assert_eq!(r, WindowRect { left: 79, top: 0, right: 131, bottom: 26 });
}

fn account(name: &str, tab: usize) -> AccountData {
    AccountData { account: name.to_string(), cookie: "session-cookie".to_string(), league: "Standard".to_string(), tab_idx: tab }
}

#[test]
fn set_account_reports_changes() {
    let mut current = AccountData::default();
    assert!(set_account(&mut current, account("a", 1)));
    assert_eq!(current, account("a", 1));
    assert!(!set_account(&mut current, account("a", 1)));
    assert!(set_account(&mut current, account("a", 2)));
    assert_eq!(current.tab_idx, 2);
}
