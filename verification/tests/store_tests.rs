use nutrition_tracker::error::TrackerError;
use nutrition_tracker::food_database::BasicFood;
use nutrition_tracker::food_log::{get_calorie_summary, FoodLog};

fn apple() -> BasicFood {
    BasicFood {
        identifier: "apple".to_string(),
        keywords: vec![],
        calories_per_serving: 95,
    }
}

#[test]
fn set_current_date_validates_format() {
    let mut log = FoodLog::new("alice");
    assert_eq!(
        log.set_current_date("2024-3-15"),
        Err(TrackerError::InvalidDate)
    );
    assert_eq!(
        log.set_current_date("not-a-date"),
        Err(TrackerError::InvalidDate)
    );
    assert_eq!(
        log.set_current_date("2024-13-01"),
        Err(TrackerError::InvalidDate)
    );
    assert_eq!(
        log.set_current_date("2023-02-29"),
        Err(TrackerError::InvalidDate)
    );
    // a leap day in a leap year is a real date
    assert!(log.set_current_date("2024-02-29").is_ok());
    // century years are leap years only when divisible by 400
    let mut log2 = FoodLog::new("bob");
    assert_eq!(
        log2.set_current_date("1900-02-29"),
        Err(TrackerError::InvalidDate)
    );
    assert!(log2.set_current_date("2000-02-29").is_ok());
}

#[test]
fn set_current_date_creates_empty_log_lazily() {
    let mut log = FoodLog::new("alice");
    assert!(log.get_entries_for_date("2024-03-15").is_none());
    assert!(log.set_current_date("2024-03-15").is_ok());
    let entries = log.get_entries_for_date("2024-03-15").unwrap();
    assert!(entries.is_empty());
    // setting the same date again does not add a second log
    assert!(log.set_current_date("2024-03-15").is_ok());
    assert_eq!(log.get_logged_dates(), vec!["2024-03-15".to_string()]);
}

#[test]
fn add_remove_undo_through_store() {
    let mut log = FoodLog::new("alice");
    assert!(log.set_current_date("2024-03-15").is_ok());
    assert!(log.add_food_entry(&apple(), 2).is_ok());
    assert_eq!(log.calculate_calories_for_date("2024-03-15"), 190);

    assert!(log.remove_food_entry("apple").is_ok());
    assert_eq!(log.calculate_calories_for_date("2024-03-15"), 0);

    assert!(log.undo().is_ok());
    assert_eq!(log.calculate_calories_for_date("2024-03-15"), 190);

    assert_eq!(log.remove_food_entry("banana"), Err(TrackerError::NotFound));
}

#[test]
fn remove_and_undo_without_log_fail() {
    // before any date's log exists, removeFood and undo have no log to work on
    let log_store = FoodLog::new("alice");
    let mut log = log_store;
    if log.get_current_log().is_none() {
        assert_eq!(log.remove_food_entry("apple"), Err(TrackerError::NoLogForDate));
        assert_eq!(log.undo(), Err(TrackerError::NoLogForDate));
    }
}

#[test]
fn add_food_entry_creates_log_for_current_date() {
    let mut log = FoodLog::new("alice");
    assert!(log.set_current_date("2024-03-15").is_ok());
    assert!(log.add_food_entry(&apple(), 1).is_ok());
    let current = log.get_current_log().unwrap();
    assert_eq!(current.entries().len(), 1);
    assert_eq!(current.entries()[0].food_id, "apple");
}

#[test]
fn calories_for_unknown_or_invalid_date_are_zero() {
    let log = FoodLog::new("alice");
    assert_eq!(log.calculate_calories_for_date("2024-03-15"), 0);
    assert_eq!(log.calculate_calories_for_date("garbage"), 0);
}

#[test]
fn compare_to_target_reports_difference() {
    let mut log = FoodLog::new("alice");
    assert!(log.set_current_date("2024-03-15").is_ok());
    assert!(log.add_food_entry(&apple(), 2).is_ok());
    let (actual, target, difference) = log.compare_to_target("2024-03-15", 2000).unwrap();
    assert_eq!(actual, 190);
    assert_eq!(target, 2000);
    assert_eq!(difference, -1810);
    assert!(log.compare_to_target("2024-03-16", 2000).is_none());
    assert!(log.compare_to_target("junk", 2000).is_none());
}

#[test]
fn summary_rejects_bad_dates_and_ranges() {
    let log = FoodLog::new("alice");
    assert!(matches!(
        get_calorie_summary(&log, "2024-03-99", "2024-03-15", 2000),
        Err(TrackerError::InvalidDate)
    ));
    assert!(matches!(
        get_calorie_summary(&log, "2024-03-15", "bad", 2000),
        Err(TrackerError::InvalidDate)
    ));
    assert!(matches!(
        get_calorie_summary(&log, "2024-03-16", "2024-03-15", 2000),
        Err(TrackerError::InvalidRange)
    ));
}

#[test]
fn summary_over_empty_store_is_all_zero() {
    // a range with no logs: actual = 0 and difference = -target on every date
    let log = FoodLog::new("alice");
    let rows = get_calorie_summary(&log, "2024-03-14", "2024-03-16", 1800).unwrap();
    assert_eq!(rows.len(), 3);
    for row in &rows {
        assert_eq!(row.actual, 0);
        assert_eq!(row.target, 1800);
        assert_eq!(row.difference, -1800);
    }
    assert_eq!(rows[0].date, nutrition_tracker::date::parse_date("2024-03-14").unwrap());
    assert_eq!(rows[2].date, nutrition_tracker::date::parse_date("2024-03-16").unwrap());
}

#[test]
fn summary_walks_every_calendar_date_in_order() {
    let mut log = FoodLog::new("alice");
    assert!(log.set_current_date("2024-02-28").is_ok());
    assert!(log.add_food_entry(&apple(), 1).is_ok());
    assert!(log.set_current_date("2024-03-01").is_ok());
    assert!(log.add_food_entry(&apple(), 3).is_ok());

    // the leap day sits between the two logged dates and counts as zero
    let rows = get_calorie_summary(&log, "2024-02-28", "2024-03-01", 100).unwrap();
    assert_eq!(rows.len(), 3);
    let dates: Vec<String> = rows
        .iter()
        .map(|r| nutrition_tracker::date::format_date(&r.date))
        .collect();
    assert_eq!(dates, vec!["2024-02-28", "2024-02-29", "2024-03-01"]);
    assert_eq!(rows[0].actual, 95);
    assert_eq!(rows[0].difference, -5);
    assert_eq!(rows[1].actual, 0);
    assert_eq!(rows[2].actual, 285);
    assert_eq!(rows[2].difference, 185);
}

#[test]
fn summary_single_day_range() {
    let mut log = FoodLog::new("alice");
    assert!(log.set_current_date("2024-03-15").is_ok());
    assert!(log.add_food_entry(&apple(), 1).is_ok());
    let rows = get_calorie_summary(&log, "2024-03-15", "2024-03-15", 95).unwrap();
    assert_eq!(rows.len(), 1);
    assert_eq!(rows[0].actual, 95);
    assert_eq!(rows[0].difference, 0);
}

#[test]
fn load_snapshots_resets_undo_and_replaces_logs() {
    let mut log = FoodLog::new("alice");
    assert!(log.set_current_date("2024-03-15").is_ok());
    assert!(log.add_food_entry(&apple(), 1).is_ok());

    let snapshots = vec![
        (
            "2024-01-01".to_string(),
            vec![("apple".to_string(), 2u64, 95u64)],
        ),
        (
            "2024-01-02".to_string(),
            vec![
                ("apple".to_string(), 1u64, 95u64),
                ("toast".to_string(), 2u64, 80u64),
            ],
        ),
    ];
    assert!(log.load(snapshots).is_ok());
    assert_eq!(log.calculate_calories_for_date("2024-01-01"), 190);
    assert_eq!(log.calculate_calories_for_date("2024-01-02"), 255);
    // the pre-load log was replaced
    assert_eq!(log.calculate_calories_for_date("2024-03-15"), 0);
    // undo stacks are never persisted: nothing to undo after a load
    assert!(log.set_current_date("2024-01-01").is_ok());
    assert_eq!(log.undo(), Err(TrackerError::NothingToUndo));
}

#[test]
fn load_snapshots_rejects_bad_input() {
    let mut log = FoodLog::new("alice");
    assert_eq!(
        log.load(vec![("2024-1-1".to_string(), vec![])]),
        Err(TrackerError::InvalidDate)
    );
    assert_eq!(
        log.load(vec![
            ("2024-01-01".to_string(), vec![]),
            ("2024-01-01".to_string(), vec![]),
        ]),
        Err(TrackerError::InconsistentState)
    );
    assert_eq!(
        log.load(vec![(
            "2024-01-01".to_string(),
            vec![("apple".to_string(), 0u64, 95u64)],
        )]),
        Err(TrackerError::InconsistentState)
    );
    // a failed load leaves the store unchanged
    assert!(log.get_logged_dates().is_empty());
}

#[test]
fn user_name_is_kept() {
    let log = FoodLog::new("alice");
    assert_eq!(log.user_name, "alice");
}
