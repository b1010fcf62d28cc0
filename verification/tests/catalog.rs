//! The food catalog: creation, search, line format, and loading with
//! composite-calorie computation.

use yada::food::{Food, FoodType};
use yada::food_repository::{food_line, parse_food_line, FoodRepository};

fn basic(id: &str, name: &str, keywords: &[&str], calories: u32) -> Food {
    Food::new_basic(
        id.to_string(),
        name.to_string(),
        keywords.iter().map(|k| k.to_string()).collect(),
        calories,
    )
}

fn composite(id: &str, name: &str, keywords: &[&str], components: &[(&str, u32)]) -> Food {
    Food::new_composite(
        id.to_string(),
        name.to_string(),
        keywords.iter().map(|k| k.to_string()).collect(),
        components.iter().map(|(c, s)| (c.to_string(), *s)).collect(),
    )
}

#[test]
fn new_basic_sets_fields() {
    let apple = basic("apple", "Apple", &["apple", "fruit"], 9500);
    assert_eq!(apple.id, "apple");
    assert_eq!(apple.calories_per_serving, 9500);
    assert!(matches!(apple.food_type, FoodType::Basic));
    assert!(apple.components.is_empty());
    assert!(apple.is_wf());
}

#[test]
fn wf_rejects_separator_characters() {
    let bad = basic("ap|ple", "Apple", &["fruit"], 9500);
    assert!(!bad.is_wf());
    let bad2 = basic("apple", "Apple", &["fr,uit"], 9500);
    assert!(!bad2.is_wf());
    let bad3 = basic("", "Apple", &["fruit"], 9500);
    assert!(!bad3.is_wf());
    let bad4 = basic("apple", "Apple", &[], 9500);
    assert!(!bad4.is_wf());
}

#[test]
fn keyword_search_matches_all_or_any() {
    let apple = basic("apple", "Apple", &["apple", "fruit", "red"], 9500);
    let all = vec!["fruit".to_string(), "red".to_string()];
    let mixed = vec!["fruit".to_string(), "green".to_string()];
    assert!(apple.matches_keywords(&all, true));
    assert!(!apple.matches_keywords(&mixed, true));
    assert!(apple.matches_keywords(&mixed, false));
    assert!(!apple.matches_keywords(&vec!["green".to_string()], false));
    assert!(apple.matches_keywords(&Vec::new(), true));
    assert!(!apple.matches_keywords(&Vec::new(), false));
}

#[test]
fn add_food_refuses_duplicates() {
    let mut repo = FoodRepository::new();
    assert!(repo.add_food(basic("apple", "Apple", &["fruit"], 9500)).is_ok());
    let err = repo.add_food(basic("apple", "Other", &["other"], 100)).unwrap_err();
    assert_eq!(err, "Food with ID apple already exists");
    assert_eq!(repo.get_all_foods().len(), 1);
}

#[test]
fn update_food_needs_an_existing_id() {
    let mut repo = FoodRepository::new();
    let err = repo.update_food(basic("apple", "Apple", &["fruit"], 9500)).unwrap_err();
    assert_eq!(err, "Food with ID apple not found");
    repo.add_food(basic("apple", "Apple", &["fruit"], 9500)).unwrap();
    repo.update_food(basic("apple", "Apple", &["fruit"], 9900)).unwrap();
    assert_eq!(repo.get_food("apple").unwrap().calories_per_serving, 9900);
}

#[test]
fn search_foods_filters_the_catalog() {
    let mut repo = FoodRepository::new();
    repo.add_food(basic("apple", "Apple", &["fruit", "red"], 9500)).unwrap();
    repo.add_food(basic("banana", "Banana", &["fruit", "yellow"], 10500)).unwrap();
    repo.add_food(basic("carrot", "Carrot", &["vegetable"], 2500)).unwrap();
    let fruit = repo.search_foods(&vec!["fruit".to_string()], true);
    assert_eq!(fruit.len(), 2);
    assert_eq!(fruit[0].id, "apple");
    assert_eq!(fruit[1].id, "banana");
    let red_or_veg = repo.search_foods(&vec!["red".to_string(), "vegetable".to_string()], false);
    assert_eq!(red_or_veg.len(), 2);
}

#[test]
fn food_lines_round_trip() {
    let apple = basic("apple", "Apple (medium)", &["apple", "fruit"], 9500);
    let line = food_line(&apple);
    assert_eq!(line, "B|apple|Apple (medium)|apple,fruit|95.00");
    let back = parse_food_line(&line).unwrap();
    assert_eq!(back.id, "apple");
    assert_eq!(back.calories_per_serving, 9500);

    let sandwich = composite(
        "pb_sandwich",
        "Peanut Butter Sandwich",
        &["sandwich", "lunch"],
        &[("bread", 200), ("peanut_butter", 100)],
    );
    let line = food_line(&sandwich);
    assert_eq!(line, "C|pb_sandwich|Peanut Butter Sandwich|sandwich,lunch|bread:2.00,peanut_butter:1.00");
    let back = parse_food_line(&line).unwrap();
    assert!(matches!(back.food_type, FoodType::Composite));
    assert_eq!(back.components.len(), 2);
    assert_eq!(back.components[0], ("bread".to_string(), 200));
}

#[test]
fn parse_food_line_rejects_bad_lines() {
    assert!(parse_food_line("").is_none());
    assert!(parse_food_line("B|apple|Apple|fruit").is_none());
    assert!(parse_food_line("X|apple|Apple|fruit|95.00").is_none());
    assert!(parse_food_line("B|apple|Apple|fruit|95.0.0").is_none());
    assert!(parse_food_line("B||Apple|fruit|95.00").is_none());
    assert!(parse_food_line("B|apple|Apple||95.00").is_none());
    assert!(parse_food_line("C|s|S|lunch|bread").is_none());
    assert!(parse_food_line("C|s|S|lunch|bread:two").is_none());
}

#[test]
fn import_computes_composite_calories() {
    let lines = vec![
        "B|bread|Wheat Bread|bread,grain|80.00".to_string(),
        "B|peanut_butter|Peanut Butter|peanut,spread|190.00".to_string(),
        "C|pb_sandwich|PB Sandwich|sandwich,lunch|bread:2.00,peanut_butter:1.00".to_string(),
        "not a food line".to_string(),
    ];
    let repo = FoodRepository::import_lines(&lines);
    assert_eq!(repo.get_all_foods().len(), 3);
    let sandwich = repo.get_food("pb_sandwich").unwrap();
    // 2 servings of 80 kcal bread plus 1 serving of 190 kcal spread
    assert_eq!(sandwich.calories_per_serving, 35000);
}

#[test]
fn import_keeps_the_last_entry_for_an_id() {
    let lines = vec![
        "B|apple|Apple|fruit|95.00".to_string(),
        "B|apple|Apple (new)|fruit|90.00".to_string(),
    ];
    let repo = FoodRepository::import_lines(&lines);
    assert_eq!(repo.get_all_foods().len(), 1);
    assert_eq!(repo.get_food("apple").unwrap().calories_per_serving, 9000);
    assert_eq!(repo.get_food("apple").unwrap().name, "Apple (new)");
}

#[test]
fn export_then_import_restores_the_catalog() {
    let mut repo = FoodRepository::new();
    repo.add_food(basic("bread", "Wheat Bread", &["bread"], 8000)).unwrap();
    repo.add_food(basic("jelly", "Grape Jelly", &["jelly"], 5000)).unwrap();
    let mut sandwich = composite("sandwich", "Jelly Sandwich", &["lunch"], &[
        ("bread", 200),
        ("jelly", 100),
    ]);
    sandwich.calories_per_serving = repo.component_sum_of(&sandwich.components);
    assert_eq!(sandwich.calories_per_serving, 21000);
    repo.add_food(sandwich).unwrap();

    let lines = repo.export_lines();
    let back = FoodRepository::import_lines(&lines);
    assert_eq!(back.get_all_foods().len(), 3);
    assert_eq!(back.get_food("sandwich").unwrap().calories_per_serving, 21000);
    assert_eq!(back.get_food("bread").unwrap().name, "Wheat Bread");
}

#[test]
fn remove_food_returns_the_entry() {
    let mut repo = FoodRepository::new();
    repo.add_food(basic("apple", "Apple", &["fruit"], 9500)).unwrap();
    let removed = repo.remove_food("apple").unwrap();
    assert_eq!(removed.name, "Apple");
    assert!(repo.get_food("apple").is_none());
    assert!(repo.remove_food("apple").is_none());
}
