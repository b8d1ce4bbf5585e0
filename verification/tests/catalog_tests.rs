use nutrition_tracker::error::TrackerError;
use nutrition_tracker::food_database::FoodDatabase;

fn kw(words: &[&str]) -> Vec<String> {
    words.iter().map(|w| w.to_string()).collect()
}

#[test]
fn add_basic_food_and_get_calories() {
    let mut db = FoodDatabase::new();
    assert!(db.add_basic_food("apple", kw(&["fruit"]), 95).is_ok());
    assert_eq!(db.get_calories("apple"), Some(95));
    assert_eq!(db.get_calories("banana"), None);
}

#[test]
fn duplicate_basic_identifier_rejected() {
    let mut db = FoodDatabase::new();
    assert!(db.add_basic_food("apple", kw(&[]), 95).is_ok());
    assert_eq!(
        db.add_basic_food("apple", kw(&[]), 100),
        Err(TrackerError::DuplicateIdentifier)
    );
    // the identifier namespace is shared between atomic and composite foods
    assert!(db.add_basic_food("snack", kw(&[]), 10).is_ok());
    assert_eq!(
        db.add_composite_food("snack", kw(&[]), vec![("apple".to_string(), 1)]),
        Err(TrackerError::DuplicateIdentifier)
    );
    assert!(db
        .add_composite_food("combo", kw(&[]), vec![("apple".to_string(), 1)])
        .is_ok());
    assert_eq!(
        db.add_basic_food("combo", kw(&[]), 5),
        Err(TrackerError::DuplicateIdentifier)
    );
}

#[test]
fn composite_with_missing_component_rejected() {
    let mut db = FoodDatabase::new();
    assert!(db.add_basic_food("apple", kw(&[]), 95).is_ok());
    let r = db.add_composite_food(
        "snack",
        kw(&[]),
        vec![("apple".to_string(), 1), ("ghost_food".to_string(), 2)],
    );
    assert_eq!(
        r,
        Err(TrackerError::ComponentNotFound("ghost_food".to_string()))
    );
    // the failed insert leaves no composite behind
    assert!(db.get_composite_food("snack").is_none());
}

#[test]
fn composite_calories_sum_components() {
    // atomic apple (95 kcal/serving), atomic peanut_butter (190 kcal/serving),
    // composite snack = apple x1 + peanut_butter x2 -> 95 + 380 = 475
    let mut db = FoodDatabase::new();
    assert!(db.add_basic_food("apple", kw(&["fruit"]), 95).is_ok());
    assert!(db
        .add_basic_food("peanut_butter", kw(&["protein"]), 190)
        .is_ok());
    assert!(db
        .add_composite_food(
            "snack",
            kw(&["snack"]),
            vec![("apple".to_string(), 1), ("peanut_butter".to_string(), 2)],
        )
        .is_ok());
    assert_eq!(db.get_calories("snack"), Some(475));
    let snack = db.get_composite_food("snack").unwrap();
    assert_eq!(snack.get_calories(), 475);
}

#[test]
fn composite_of_composite_flattens_scaled() {
    // composite c referencing composite b with quantity q gets b's
    // components, each quantity scaled by q
    let mut db = FoodDatabase::new();
    assert!(db.add_basic_food("oats", kw(&[]), 150).is_ok());
    assert!(db.add_basic_food("milk", kw(&[]), 103).is_ok());
    assert!(db
        .add_composite_food(
            "porridge",
            kw(&[]),
            vec![("oats".to_string(), 1), ("milk".to_string(), 2)],
        )
        .is_ok());
    assert!(db
        .add_composite_food("double_porridge", kw(&[]), vec![("porridge".to_string(), 2)])
        .is_ok());
    let b = db.get_composite_food("porridge").unwrap();
    let c = db.get_composite_food("double_porridge").unwrap();
    assert_eq!(c.components.len(), b.components.len());
    for (bc, cc) in b.components.iter().zip(c.components.iter()) {
        assert_eq!(cc.0.identifier, bc.0.identifier);
        assert_eq!(cc.1, bc.1 * 2);
    }
    // components stay atomic-only, so totals scale too
    assert_eq!(db.get_calories("double_porridge"), Some(2 * 356));
}

#[test]
fn duplicate_atomic_lines_kept_separate() {
    // the same atomic food reachable through two component references is
    // kept as separate line items; the total is unaffected
    let mut db = FoodDatabase::new();
    assert!(db.add_basic_food("bread", kw(&[]), 80).is_ok());
    assert!(db
        .add_composite_food("toast", kw(&[]), vec![("bread".to_string(), 1)])
        .is_ok());
    assert!(db
        .add_composite_food(
            "sandwich",
            kw(&[]),
            vec![("bread".to_string(), 1), ("toast".to_string(), 1)],
        )
        .is_ok());
    let s = db.get_composite_food("sandwich").unwrap();
    assert_eq!(s.components.len(), 2);
    assert_eq!(s.components[0].0.identifier, "bread");
    assert_eq!(s.components[1].0.identifier, "bread");
    assert_eq!(db.get_calories("sandwich"), Some(160));
}

#[test]
fn search_matches_prefix_of_identifier_or_keyword() {
    let mut db = FoodDatabase::new();
    assert!(db.add_basic_food("Apple", kw(&["fruit", "red"]), 95).is_ok());
    assert!(db.add_basic_food("banana", kw(&["FRUIT"]), 105).is_ok());
    assert!(db
        .add_composite_food("apple_pie", kw(&["dessert"]), vec![("Apple".to_string(), 3)])
        .is_ok());

    // case-insensitive identifier prefix, atomic results before composite
    let by_id = db.search_foods("aPp");
    let names: Vec<&str> = by_id.iter().map(|p| p.0.as_str()).collect();
    assert_eq!(names, vec!["Apple", "apple_pie"]);
    assert_eq!(by_id[0].1, 95);
    assert_eq!(by_id[1].1, 285);

    // keyword prefix, case-insensitive both ways
    let by_kw = db.search_foods("fru");
    let names: Vec<&str> = by_kw.iter().map(|p| p.0.as_str()).collect();
    assert_eq!(names, vec!["Apple", "banana"]);

    // no match yields an empty result, not an error
    assert!(db.search_foods("zzz").is_empty());

    // the empty query is a prefix of everything
    assert_eq!(db.search_foods("").len(), 3);
}

#[test]
fn get_basic_and_composite_food_lookup() {
    let mut db = FoodDatabase::new();
    assert!(db.add_basic_food("apple", kw(&["fruit"]), 95).is_ok());
    let f = db.get_basic_food("apple").unwrap();
    assert_eq!(f.identifier, "apple");
    assert_eq!(f.get_calories(), 95);
    assert_eq!(f.keywords, vec!["fruit".to_string()]);
    assert!(db.get_basic_food("missing").is_none());
    assert!(db.get_composite_food("apple").is_none());
}

#[test]
fn load_rebuilds_catalog_in_file_order() {
    let mut db = FoodDatabase::new();
    let basics = vec![
        ("apple".to_string(), kw(&["fruit"]), 95),
        ("peanut_butter".to_string(), kw(&[]), 190),
    ];
    // the second composite references the first: file order matters
    let composites = vec![
        (
            "snack".to_string(),
            kw(&[]),
            vec![("apple".to_string(), 1), ("peanut_butter".to_string(), 2)],
        ),
        ("double_snack".to_string(), kw(&[]), vec![("snack".to_string(), 2)]),
    ];
    assert!(db.load(basics, composites).is_ok());
    assert_eq!(db.get_calories("snack"), Some(475));
    assert_eq!(db.get_calories("double_snack"), Some(950));
}

#[test]
fn load_reports_first_problem() {
    let mut db = FoodDatabase::new();
    let basics = vec![
        ("apple".to_string(), kw(&[]), 95),
        ("apple".to_string(), kw(&[]), 100),
    ];
    assert_eq!(
        db.load(basics, vec![]),
        Err(TrackerError::DuplicateIdentifier)
    );

    let mut db2 = FoodDatabase::new();
    let composites = vec![("snack".to_string(), kw(&[]), vec![("nope".to_string(), 1)])];
    assert_eq!(
        db2.load(vec![("apple".to_string(), kw(&[]), 95)], composites),
        Err(TrackerError::ComponentNotFound("nope".to_string()))
    );
}
