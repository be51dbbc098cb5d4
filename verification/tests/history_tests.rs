use attendance::store::AttendanceStore;
use chrono::Datelike;

fn day_number(y: i32, m: u32, d: u32) -> i32 {
    chrono::NaiveDate::from_ymd_opt(y, m, d)
        .unwrap()
        .num_days_from_ce()
}

#[test]
fn history_keeps_dates_on_or_after_window_start() {
    let mut store = AttendanceStore::new();
    store.add_person("Ada", "Lovelace", "").unwrap();
    store.upsert_attendance("2024-01-01", 1, true).unwrap();
    store.upsert_attendance("2024-03-15", 1, true).unwrap();
    store.upsert_attendance("2023-12-31", 1, true).unwrap();
    let histories = store.history_with_window(day_number(2024, 1, 1));
    assert_eq!(histories.len(), 1);
    assert_eq!(
        histories[0].attendances,
        vec!["2024-01-01".to_string(), "2024-03-15".to_string()]
    );
}

#[test]
fn history_rolling_window_keeps_recent_drops_old() {
    let mut store = AttendanceStore::new();
    store.add_person("Ada", "Lovelace", "").unwrap();
    let today = chrono::Utc::now().date_naive();
    let recent = (today - chrono::Duration::days(10))
        .format("%Y-%m-%d")
        .to_string();
    let old = (today - chrono::Duration::days(400))
        .format("%Y-%m-%d")
        .to_string();
    store.upsert_attendance(&recent, 1, true).unwrap();
    store.upsert_attendance(&old, 1, true).unwrap();
    let histories = store.list_persons_with_history().unwrap();
    assert_eq!(histories.len(), 1);
    assert!(histories[0].attendances.contains(&recent));
    assert!(!histories[0].attendances.contains(&old));
}

#[test]
fn history_skips_malformed_dates_without_failing() {
    let mut store = AttendanceStore::new();
    store.add_person("Ada", "Lovelace", "").unwrap();
    store.upsert_attendance("banana", 1, true).unwrap();
    store.upsert_attendance("2024-13-40", 1, true).unwrap();
    let histories = store.list_persons_with_history().unwrap();
    assert_eq!(histories.len(), 1);
    assert!(histories[0].attendances.is_empty());
}

#[test]
fn history_two_person_scenario() {
    let mut store = AttendanceStore::new();
    store.add_person("Alice", "A", "").unwrap();
    store.add_person("Bob", "B", "").unwrap();
    let today = chrono::Utc::now().date_naive();
    let today_s = today.format("%Y-%m-%d").to_string();
    let old = (today - chrono::Duration::days(400))
        .format("%Y-%m-%d")
        .to_string();
    store.upsert_attendance(&today_s, 1, true).unwrap();
    store.upsert_attendance(&old, 2, true).unwrap();
    let histories = store.list_persons_with_history().unwrap();
    assert_eq!(histories.len(), 2);
    assert_eq!(histories[0].person.last_name, "A");
    assert_eq!(histories[0].attendances, vec![today_s]);
    assert_eq!(histories[1].person.last_name, "B");
    assert!(histories[1].attendances.is_empty());
}

#[test]
fn history_lists_every_person_in_roster_order() {
    let mut store = AttendanceStore::new();
    store.add_person("Grace", "Hopper", "").unwrap();
    store.add_person("Alan", "Turing", "").unwrap();
    store.add_person("Ada", "Byron", "").unwrap();
    let histories = store.history_with_window(day_number(2024, 1, 1));
    let last_names: Vec<String> = histories
        .iter()
        .map(|h| h.person.last_name.clone())
        .collect();
    assert_eq!(
        last_names,
        vec!["Byron".to_string(), "Hopper".to_string(), "Turing".to_string()]
    );
}

#[test]
fn history_groups_dates_by_person() {
    let mut store = AttendanceStore::new();
    store.add_person("Ada", "A", "").unwrap();
    store.add_person("Bob", "B", "").unwrap();
    store.upsert_attendance("2024-02-01", 1, true).unwrap();
    store.upsert_attendance("2024-02-02", 2, true).unwrap();
    store.upsert_attendance("2024-02-03", 1, true).unwrap();
    let histories = store.history_with_window(day_number(2024, 1, 1));
    assert_eq!(
        histories[0].attendances,
        vec!["2024-02-01".to_string(), "2024-02-03".to_string()]
    );
    assert_eq!(histories[1].attendances, vec!["2024-02-02".to_string()]);
}
