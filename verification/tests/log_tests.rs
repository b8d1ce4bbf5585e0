use nutrition_tracker::daily_log::DailyLog;
use nutrition_tracker::date::{parse_date, Date};
use nutrition_tracker::error::TrackerError;
use nutrition_tracker::food_database::BasicFood;

fn apple() -> BasicFood {
    BasicFood {
        identifier: "apple".to_string(),
        keywords: vec!["fruit".to_string()],
        calories_per_serving: 95,
    }
}

fn peanut_butter() -> BasicFood {
    BasicFood {
        identifier: "peanut_butter".to_string(),
        keywords: vec![],
        calories_per_serving: 190,
    }
}

fn day() -> Date {
    parse_date("2024-03-15").unwrap()
}

#[test]
fn add_entry_merges_servings() {
    // addEntry(apple, 1) then addEntry(apple, 2) -> one entry, servings 3;
    // undo -> servings 1; undo -> entry removed; undo -> NothingToUndo
    let mut log = DailyLog::new(day());
    log.add_entry(&apple(), 1);
    log.add_entry(&apple(), 2);
    assert_eq!(log.entries().len(), 1);
    assert_eq!(log.entries()[0].servings, 3);

    assert!(log.undo().is_ok());
    assert_eq!(log.entries().len(), 1);
    assert_eq!(log.entries()[0].servings, 1);

    assert!(log.undo().is_ok());
    assert!(log.entries().is_empty());

    assert_eq!(log.undo(), Err(TrackerError::NothingToUndo));
}

#[test]
fn add_then_undo_restores_new_entry_case() {
    let mut log = DailyLog::new(day());
    log.add_entry(&apple(), 2);
    assert_eq!(log.entries().len(), 1);
    assert!(log.undo().is_ok());
    assert!(log.entries().is_empty());
    assert_eq!(log.undo_depth(), 0);
}

#[test]
fn add_then_undo_restores_merge_case() {
    let mut log = DailyLog::new(day());
    log.add_entry(&apple(), 4);
    log.add_entry(&peanut_butter(), 1);
    log.add_entry(&apple(), 3);
    assert_eq!(log.entries().len(), 2);
    assert_eq!(log.entries()[0].servings, 7);
    assert!(log.undo().is_ok());
    assert_eq!(log.entries().len(), 2);
    assert_eq!(log.entries()[0].servings, 4);
    assert_eq!(log.entries()[0].food_id, "apple");
    assert_eq!(log.entries()[1].food_id, "peanut_butter");
}

#[test]
fn remove_entry_then_undo_restores_entry() {
    let mut log = DailyLog::new(day());
    log.add_entry(&apple(), 2);
    log.add_entry(&peanut_butter(), 5);
    assert!(log.remove_entry("apple").is_ok());
    assert_eq!(log.entries().len(), 1);
    assert_eq!(log.entries()[0].food_id, "peanut_butter");

    assert!(log.undo().is_ok());
    assert_eq!(log.entries().len(), 2);
    // the restored entry is re-appended at the end with its original
    // servings and snapshotted calorie rate
    assert_eq!(log.entries()[1].food_id, "apple");
    assert_eq!(log.entries()[1].servings, 2);
    assert_eq!(log.entries()[1].calories, 95);
}

#[test]
fn remove_missing_entry_fails() {
    let mut log = DailyLog::new(day());
    log.add_entry(&apple(), 1);
    assert_eq!(log.remove_entry("banana"), Err(TrackerError::NotFound));
    assert_eq!(log.entries().len(), 1);
}

#[test]
fn total_calories_sums_servings_times_rate() {
    // two servings of snack's components logged individually:
    // apple x2 and peanut_butter x4 -> 95*2 + 190*4 = 950
    let mut log = DailyLog::new(day());
    log.add_entry(&apple(), 2);
    log.add_entry(&peanut_butter(), 4);
    assert_eq!(log.calculate_total_calories(), 950);
}

#[test]
fn calorie_rate_snapshotted_at_insertion() {
    let mut log = DailyLog::new(day());
    log.add_entry(&apple(), 1);
    // a later catalog edit does not change the logged entry's rate
    let mut edited = apple();
    edited.calories_per_serving = 200;
    assert_eq!(log.entries()[0].calories, 95);
    // merging more servings keeps the snapshotted rate of the entry
    log.add_entry(&edited, 1);
    assert_eq!(log.entries()[0].calories, 95);
    assert_eq!(log.calculate_total_calories(), 190);
}

#[test]
fn empty_log_total_is_zero() {
    let log = DailyLog::new(day());
    assert_eq!(log.calculate_total_calories(), 0);
    assert_eq!(log.date(), day());
}
