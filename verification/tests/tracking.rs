//! Logs, profiles and calorie targets: exact totals, the two formulas,
//! and the stored line formats.

use yada::calorie_calculator::{
    CalorieCalculatorFactory, CalculatorChoice, HarrisBenedictCalculator, MifflinStJeorCalculator,
};
use yada::date::{Date, Timestamp};
use yada::food::Food;
use yada::food_repository::FoodRepository;
use yada::log::{DailyLog, FoodEntry};
use yada::log_repository::{log_line, parse_log_line, LogRepository};
use yada::profile::{ActivityLevel, DailyProfile, Gender, UserProfile};
use yada::profile_repository::ProfileRepository;

fn d(y: u32, m: u32, day: u32) -> Date {
    Date::from_ymd(y, m, day).unwrap()
}

fn ts(y: u32, m: u32, day: u32, h: u32, mi: u32, s: u32) -> Timestamp {
    Timestamp { date: d(y, m, day), hour: h, minute: mi, second: s }
}

fn catalog() -> FoodRepository {
    let mut repo = FoodRepository::new();
    repo.add_food(Food::new_basic(
        "apple".to_string(),
        "Apple".to_string(),
        vec!["fruit".to_string()],
        9500,
    )).unwrap();
    repo.add_food(Food::new_basic(
        "bread".to_string(),
        "Bread".to_string(),
        vec!["grain".to_string()],
        8000,
    )).unwrap();
    repo
}

#[test]
fn total_calories_sums_known_foods() {
    let repo = catalog();
    let mut log = DailyLog::new(d(2025, 5, 25));
    log.add_entry_at("apple".to_string(), 100, ts(2025, 5, 25, 8, 0, 0));
    log.add_entry_at("bread".to_string(), 250, ts(2025, 5, 25, 12, 30, 0));
    log.add_entry_at("mystery".to_string(), 100, ts(2025, 5, 25, 13, 0, 0));
    // one apple (95) plus two and a half breads (200), unknown food ignored
    assert_eq!(log.total_calories(&repo), 29500);
}

#[test]
fn remove_entry_checks_bounds() {
    let mut log = DailyLog::new(d(2025, 5, 25));
    log.add_entry_at("apple".to_string(), 100, ts(2025, 5, 25, 8, 0, 0));
    assert!(log.remove_entry(1).is_none());
    let removed = log.remove_entry(0).unwrap();
    assert_eq!(removed.food_id, "apple");
    assert!(log.entries.is_empty());
}

#[test]
fn log_lines_round_trip() {
    let e = FoodEntry {
        food_id: "apple".to_string(),
        servings: 150,
        timestamp: ts(2025, 5, 25, 8, 30, 0),
    };
    let line = log_line(d(2025, 5, 25), &e);
    assert_eq!(line, "2025-05-25|apple|1.50|2025-05-25T08:30:00");
    let (date, back) = parse_log_line(&line).unwrap();
    assert_eq!(date, d(2025, 5, 25));
    assert_eq!(back.food_id, "apple");
    assert_eq!(back.servings, 150);
}

#[test]
fn parse_log_line_rejects_bad_lines() {
    assert!(parse_log_line("2025-05-25|apple|1.50").is_none());
    assert!(parse_log_line("25-05-2025|apple|1.50|2025-05-25T08:30:00").is_none());
    assert!(parse_log_line("2025-05-25||1.50|2025-05-25T08:30:00").is_none());
    assert!(parse_log_line("2025-05-25|apple|much|2025-05-25T08:30:00").is_none());
    assert!(parse_log_line("2025-05-25|apple|1.50|yesterday").is_none());
}

#[test]
fn log_repository_groups_by_date() {
    let mut repo = LogRepository::new();
    let day1 = d(2025, 5, 25);
    let day2 = d(2025, 5, 26);
    repo.add_entry_at(day1, "apple".to_string(), 100, ts(2025, 5, 25, 8, 0, 0));
    repo.add_entry_at(day2, "bread".to_string(), 100, ts(2025, 5, 26, 8, 0, 0));
    repo.add_entry_at(day1, "bread".to_string(), 200, ts(2025, 5, 25, 12, 0, 0));
    assert_eq!(repo.get_log(day1).unwrap().entries.len(), 2);
    assert_eq!(repo.get_log(day2).unwrap().entries.len(), 1);
    assert!(repo.get_log(d(2025, 5, 27)).is_none());
}

#[test]
fn log_export_then_import_restores_history() {
    let mut repo = LogRepository::new();
    repo.add_entry_at(d(2025, 5, 25), "apple".to_string(), 100, ts(2025, 5, 25, 8, 0, 0));
    repo.add_entry_at(d(2025, 5, 25), "bread".to_string(), 250, ts(2025, 5, 25, 12, 0, 0));
    repo.add_entry_at(d(2025, 5, 26), "apple".to_string(), 50, ts(2025, 5, 26, 9, 0, 0));
    let lines = repo.export_lines();
    assert_eq!(lines.len(), 3);
    let back = LogRepository::import_lines(&lines);
    assert_eq!(back.get_log(d(2025, 5, 25)).unwrap().entries.len(), 2);
    let e = &back.get_log(d(2025, 5, 26)).unwrap().entries[0];
    assert_eq!(e.servings, 50);
    assert_eq!(e.timestamp, ts(2025, 5, 26, 9, 0, 0));
}

#[test]
fn export_writes_days_in_ascending_date_order() {
    let mut repo = LogRepository::new();
    repo.add_entry_at(d(2025, 5, 26), "bread".to_string(), 100, ts(2025, 5, 26, 8, 0, 0));
    repo.add_entry_at(d(2025, 5, 24), "apple".to_string(), 100, ts(2025, 5, 24, 8, 0, 0));
    repo.add_entry_at(d(2025, 5, 26), "apple".to_string(), 200, ts(2025, 5, 26, 12, 0, 0));
    let lines = repo.export_lines();
    assert_eq!(lines, vec![
        "2025-05-24|apple|1.00|2025-05-24T08:00:00".to_string(),
        "2025-05-26|bread|1.00|2025-05-26T08:00:00".to_string(),
        "2025-05-26|apple|2.00|2025-05-26T12:00:00".to_string(),
    ]);
    let back = LogRepository::import_lines(&lines);
    assert_eq!(back.get_log(d(2025, 5, 24)).unwrap().entries.len(), 1);
    assert_eq!(back.get_log(d(2025, 5, 26)).unwrap().entries.len(), 2);
}

#[test]
fn age_counts_completed_years() {
    let p = UserProfile::new(Gender::Male, 17500, d(1990, 6, 15));
    assert_eq!(p.age(d(2024, 6, 14)), 33);
    assert_eq!(p.age(d(2024, 6, 15)), 34);
    assert_eq!(p.age(d(2024, 6, 16)), 34);
    assert_eq!(p.age(d(1990, 6, 15)), 0);
}

#[test]
fn age_handles_leap_day_births() {
    let p = UserProfile::new(Gender::Female, 16500, d(2000, 2, 29));
    // in a non-leap year the anniversary falls back to the birth date,
    // which lies in the past, so the year counts as completed
    assert_eq!(p.age(d(2023, 2, 28)), 23);
    assert_eq!(p.age(d(2024, 2, 28)), 23);
    assert_eq!(p.age(d(2024, 2, 29)), 24);
}

#[test]
fn daily_profiles_update_in_place() {
    let mut p = UserProfile::new(Gender::Other, 17000, d(1995, 3, 1));
    let day = d(2025, 5, 25);
    p.add_or_update_daily_profile(DailyProfile {
        date: day,
        weight: 7000,
        activity_level: ActivityLevel::Sedentary,
    });
    p.add_or_update_daily_profile(DailyProfile {
        date: day,
        weight: 7100,
        activity_level: ActivityLevel::VeryActive,
    });
    assert_eq!(p.daily_profiles.len(), 1);
    let dp = p.get_daily_profile(day).unwrap();
    assert_eq!(dp.weight, 7100);
    assert!(p.get_daily_profile(d(2025, 5, 26)).is_none());
}

#[test]
fn harris_benedict_matches_the_formula() {
    let mut p = UserProfile::new(Gender::Male, 17500, d(1990, 1, 15));
    let day = d(2024, 6, 1);
    p.add_or_update_daily_profile(DailyProfile {
        date: day,
        weight: 7000,
        activity_level: ActivityLevel::Sedentary,
    });
    let calc = HarrisBenedictCalculator {};
    // bmr = 88.362 + 13.397*70 + 4.799*175 - 5.677*34 = 1672.959 kcal
    // target = bmr * 1.2 = 2007.5508 kcal, in hundredths: 200755
    assert_eq!(calc.target_calories(&p, day), 200755);
}

#[test]
fn mifflin_st_jeor_matches_the_formula() {
    let mut p = UserProfile::new(Gender::Male, 17500, d(1990, 1, 15));
    let day = d(2024, 6, 1);
    p.add_or_update_daily_profile(DailyProfile {
        date: day,
        weight: 7000,
        activity_level: ActivityLevel::Sedentary,
    });
    let calc = MifflinStJeorCalculator {};
    // bmr = 10*70 + 6.25*175 - 5*34 + 5 = 1628.75 kcal
    // target = bmr * 1.2 = 1954.5 kcal, in hundredths: 195450
    assert_eq!(calc.target_calories(&p, day), 195450);
}

#[test]
fn target_is_zero_without_a_snapshot() {
    let p = UserProfile::new(Gender::Female, 16500, d(1990, 1, 15));
    let calc = HarrisBenedictCalculator {};
    assert_eq!(calc.target_calories(&p, d(2024, 6, 1)), 0);
}

#[test]
fn factory_finds_calculators_by_name() {
    let factory = CalorieCalculatorFactory::new();
    assert_eq!(factory.get_calculator("harris_benedict"), Some(CalculatorChoice::HarrisBenedict));
    assert_eq!(factory.get_calculator("mifflin_st_jeor"), Some(CalculatorChoice::MifflinStJeor));
    assert_eq!(factory.get_calculator("unknown"), None);
    let names = factory.get_all_calculators();
    assert_eq!(names, vec!["harris_benedict".to_string(), "mifflin_st_jeor".to_string()]);
}

#[test]
fn reregistering_a_calculator_replaces_its_entry() {
    let mut factory = CalorieCalculatorFactory::new();
    factory.register_calculator(CalculatorChoice::HarrisBenedict);
    let names = factory.get_all_calculators();
    assert_eq!(names, vec!["harris_benedict".to_string(), "mifflin_st_jeor".to_string()]);
    assert_eq!(factory.get_calculator("harris_benedict"), Some(CalculatorChoice::HarrisBenedict));
}

#[test]
fn profile_lines_round_trip() {
    let mut p = UserProfile::new(Gender::Female, 16550, d(1992, 11, 3));
    p.add_or_update_daily_profile(DailyProfile {
        date: d(2025, 5, 25),
        weight: 6200,
        activity_level: ActivityLevel::ModeratelyActive,
    });
    let mut repo = ProfileRepository::new();
    assert!(p.is_storable());
    repo.set_profile(p);
    let lines = repo.export_lines();
    assert_eq!(lines[0], "PROFILE|F|165.50|1992-11-03|harris_benedict");
    assert_eq!(lines[1], "DAILY|2025-05-25|62.00|M");
    let back = ProfileRepository::import_lines(&lines);
    let q = back.get_profile().unwrap();
    assert_eq!(q.height, 16550);
    assert_eq!(q.birth_date, d(1992, 11, 3));
    assert_eq!(q.daily_profiles.len(), 1);
    assert_eq!(q.daily_profiles[0].weight, 6200);
    assert!(matches!(q.daily_profiles[0].activity_level, ActivityLevel::ModeratelyActive));
}

#[test]
fn profile_import_is_lenient_about_letters() {
    let lines = vec![
        "PROFILE|X|180.00|1988-07-20|mifflin_st_jeor".to_string(),
        "DAILY|2025-01-01|80.00|Z".to_string(),
    ];
    let repo = ProfileRepository::import_lines(&lines);
    let p = repo.get_profile().unwrap();
    assert!(matches!(p.gender, Gender::Other));
    assert!(matches!(p.daily_profiles[0].activity_level, ActivityLevel::Sedentary));
    assert_eq!(p.calculation_method, "mifflin_st_jeor");
}

#[test]
fn profile_import_skips_orphan_daily_lines() {
    let lines = vec![
        "DAILY|2025-01-01|80.00|S".to_string(),
        "garbage".to_string(),
    ];
    let repo = ProfileRepository::import_lines(&lines);
    assert!(repo.get_profile().is_none());
}

#[test]
fn daily_snapshot_update_is_refused_without_a_profile() {
    let mut repo = ProfileRepository::new();
    let err = repo.add_or_update_daily_profile(DailyProfile {
        date: d(2025, 5, 25),
        weight: 7000,
        activity_level: ActivityLevel::Sedentary,
    }).unwrap_err();
    assert_eq!(err, "No user profile exists");
}
