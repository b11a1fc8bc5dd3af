use maenggu::save::SaveData;
use maenggu::save::SaveDataStats;
use maenggu::state::SnackState;

fn fresh() -> SnackState {
    SnackState::default()
}

#[test]
fn fresh_default_state() {
    let s = fresh();
    assert_eq!(s.data.version, 1);
    assert_eq!(s.data.snacks, 0);
    assert_eq!(s.data.stats.total_clicks, 0);
    assert_eq!(s.data.stats.total_feedings, 0);
    assert_eq!(s.data.stats.peak_snacks, 0);
    assert_eq!(s.data.stats.session_playtime, 0);
    assert_eq!(s.data, SaveData::default());
}

#[test]
fn add_then_spend_scenario() {
    let mut s = fresh();
    let total = s.snack_add(Some(5));
    assert_eq!(total, 5);
    assert!(s.snack_spend(Some(3)));
    assert!(!s.snack_spend(Some(10)));
    assert_eq!(s.data.snacks, 2);
    assert_eq!(s.data.stats.peak_snacks, 5);
    assert_eq!(s.data.stats.total_clicks, 1);
    assert_eq!(s.data.stats.total_feedings, 1);
}

#[test]
fn add_default_amount_is_one() {
    let mut s = fresh();
    let total = s.snack_add(None);
    assert_eq!(total, 1);
    assert_eq!(s.data.snacks, 1);
    assert_eq!(s.data.stats.total_clicks, 1);
}

#[test]
fn add_zero_still_counts_a_click() {
    let mut s = fresh();
    let total = s.snack_add(Some(0));
    assert_eq!(total, 0);
    assert_eq!(s.data.snacks, 0);
    assert_eq!(s.data.stats.total_clicks, 1);
    assert_eq!(s.data.stats.peak_snacks, 0);
}

#[test]
fn insufficient_spend_changes_nothing() {
    let mut s = fresh();
    assert!(!s.snack_spend(Some(1)));
    assert_eq!(s.data, SaveData::default());

    s.snack_add(Some(4));
    let before = s.data;
    assert!(!s.snack_spend(Some(5)));
    assert_eq!(s.data, before);
}

#[test]
fn spend_default_amount_is_one() {
    let mut s = fresh();
    s.snack_add(Some(2));
    assert!(s.snack_spend(None));
    assert_eq!(s.data.snacks, 1);
    assert_eq!(s.data.stats.total_feedings, 1);
}

#[test]
fn spend_exact_balance_reaches_zero() {
    let mut s = fresh();
    s.snack_add(Some(7));
    assert!(s.snack_spend(Some(7)));
    assert_eq!(s.data.snacks, 0);
    assert_eq!(s.data.stats.total_feedings, 1);
    assert!(!s.snack_spend(Some(1)));
}

#[test]
fn peak_tracks_highest_balance_attained() {
    let mut s = fresh();
    s.snack_add(Some(5));
    assert!(s.snack_spend(Some(3)));
    s.snack_add(Some(1));
    assert_eq!(s.data.snacks, 3);
    assert_eq!(s.data.stats.peak_snacks, 5);
    s.snack_add(Some(10));
    assert_eq!(s.data.snacks, 13);
    assert_eq!(s.data.stats.peak_snacks, 13);
}

#[test]
fn counters_count_adds_and_successful_spends() {
    let mut s = fresh();
    s.snack_add(Some(3));
    s.snack_add(Some(2));
    s.snack_add(None);
    assert!(s.snack_spend(Some(4)));
    assert!(!s.snack_spend(Some(100)));
    assert!(s.snack_spend(None));
    assert_eq!(s.data.stats.total_clicks, 3);
    assert_eq!(s.data.stats.total_feedings, 2);
}

#[test]
fn many_unit_adds_lose_no_update() {
    let mut s = fresh();
    for _ in 0..1000 {
        s.snack_add(Some(1));
    }
    assert_eq!(s.data.snacks, 1000);
    assert_eq!(s.data.stats.total_clicks, 1000);
    assert_eq!(s.data.stats.peak_snacks, 1000);
}

#[test]
fn load_save_without_document_yields_default() {
    let mut s = fresh();
    s.snack_add(Some(9));
    let d = s.load_save(None);
    assert_eq!(d, SaveData::default());
    assert_eq!(s.data, SaveData::default());
}

#[test]
fn load_save_replaces_state_wholesale() {
    let mut s = fresh();
    let read = SaveData {
        version: 1,
        snacks: 42,
        stats: SaveDataStats {
            total_clicks: 7,
            total_feedings: 3,
            peak_snacks: 50,
            session_playtime: 120,
        },
    };
    let d = s.load_save(Some(read));
    assert_eq!(d, read);
    assert_eq!(s.data, read);
}

#[test]
fn session_playtime_untouched_by_operations() {
    let mut s = fresh();
    let read = SaveData {
        version: 1,
        snacks: 0,
        stats: SaveDataStats {
            total_clicks: 0,
            total_feedings: 0,
            peak_snacks: 0,
            session_playtime: 777,
        },
    };
    s.load_save(Some(read));
    s.snack_add(Some(2));
    assert!(s.snack_spend(Some(1)));
    assert_eq!(s.data.stats.session_playtime, 777);
}
