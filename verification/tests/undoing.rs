//! The command layer: executing, undoing, the capped history, and the
//! clock wrapper.

use yada::clock::{now_timestamp, today};
use yada::command::{Command, CommandType};
use yada::command_manager::{AppCommand, CommandManager};
use yada::datastore::Datastore;
use yada::date::Date;
use yada::food::Food;
use yada::food_commands::{AddFoodCommand, UpdateFoodCommand};
use yada::log_commands::{AddLogEntryCommand, RemoveLogEntryCommand};
use yada::profile::{ActivityLevel, DailyProfile, Gender, UserProfile};
use yada::profile_commands::{UpdateDailyProfileCommand, UpdateUserProfileCommand};

fn d(y: u32, m: u32, day: u32) -> Date {
    Date::from_ymd(y, m, day).unwrap()
}

fn apple() -> Food {
    Food::new_basic(
        "apple".to_string(),
        "Apple".to_string(),
        vec!["fruit".to_string()],
        9500,
    )
}

#[test]
fn add_food_command_round_trips() {
    let mut data = Datastore::new();
    let mut cmd = AddFoodCommand::new(apple());
    assert!(cmd.run(&mut data).is_ok());
    assert!(data.foods.get_food("apple").is_some());
    assert!(cmd.revert(&mut data).is_ok());
    assert!(data.foods.get_food("apple").is_none());
}

#[test]
fn add_food_command_refuses_duplicates() {
    let mut data = Datastore::new();
    data.foods.add_food(apple()).unwrap();
    let mut cmd = AddFoodCommand::new(apple());
    let err = cmd.run(&mut data).unwrap_err();
    assert_eq!(err, "Food with ID apple already exists");
    assert_eq!(cmd.revert(&mut data).unwrap_err(), "Command was not executed");
}

#[test]
fn update_food_command_restores_the_old_entry() {
    let mut data = Datastore::new();
    data.foods.add_food(apple()).unwrap();
    let mut newer = apple();
    newer.calories_per_serving = 9000;
    let mut cmd = UpdateFoodCommand::new(&data.foods, newer);
    assert!(cmd.run(&mut data).is_ok());
    assert_eq!(data.foods.get_food("apple").unwrap().calories_per_serving, 9000);
    assert!(cmd.revert(&mut data).is_ok());
    assert_eq!(data.foods.get_food("apple").unwrap().calories_per_serving, 9500);
}

#[test]
fn add_log_entry_command_round_trips() {
    let mut data = Datastore::new();
    let day = d(2025, 5, 25);
    let mut cmd = AddLogEntryCommand::new(day, "apple".to_string(), 150);
    assert!(cmd.run(&mut data).is_ok());
    assert_eq!(data.logs.get_log(day).unwrap().entries.len(), 1);
    assert!(cmd.revert(&mut data).is_ok());
    assert_eq!(data.logs.get_log(day).unwrap().entries.len(), 0);
}

#[test]
fn remove_log_entry_command_restores_position() {
    let mut data = Datastore::new();
    let day = d(2025, 5, 25);
    data.logs.add_entry_at(day, "apple".to_string(), 100, now_timestamp());
    data.logs.add_entry_at(day, "bread".to_string(), 200, now_timestamp());
    let mut cmd = RemoveLogEntryCommand::new(day, 0);
    assert!(cmd.run(&mut data).is_ok());
    assert_eq!(data.logs.get_log(day).unwrap().entries[0].food_id, "bread");
    assert!(cmd.revert(&mut data).is_ok());
    assert_eq!(data.logs.get_log(day).unwrap().entries[0].food_id, "apple");
    assert_eq!(data.logs.get_log(day).unwrap().entries.len(), 2);
}

#[test]
fn remove_log_entry_command_reports_a_bad_index() {
    let mut data = Datastore::new();
    let mut cmd = RemoveLogEntryCommand::new(d(2025, 5, 25), 3);
    let err = cmd.run(&mut data).unwrap_err();
    assert_eq!(err, "No entry at index 3 to remove");
}

#[test]
fn update_profile_command_round_trips() {
    let mut data = Datastore::new();
    let first = UserProfile::new(Gender::Male, 17500, d(1990, 1, 15));
    data.profile.set_profile(first);
    let second = UserProfile::new(Gender::Male, 18000, d(1990, 1, 15));
    let mut cmd = UpdateUserProfileCommand::new(&data.profile, second);
    assert!(cmd.run(&mut data).is_ok());
    assert_eq!(data.profile.get_profile().unwrap().height, 18000);
    assert!(cmd.revert(&mut data).is_ok());
    assert_eq!(data.profile.get_profile().unwrap().height, 17500);
}

#[test]
fn update_daily_profile_command_round_trips() {
    let mut data = Datastore::new();
    data.profile.set_profile(UserProfile::new(Gender::Female, 16500, d(1992, 11, 3)));
    let day = d(2025, 5, 25);
    let snapshot = DailyProfile { date: day, weight: 6200, activity_level: ActivityLevel::Sedentary };
    let mut cmd = UpdateDailyProfileCommand::new(&data.profile, snapshot);
    assert!(cmd.run(&mut data).is_ok());
    assert_eq!(data.profile.get_profile().unwrap().daily_profiles.len(), 1);
    assert!(cmd.revert(&mut data).is_ok());
    assert_eq!(data.profile.get_profile().unwrap().daily_profiles.len(), 0);
}

#[test]
fn update_daily_profile_command_needs_a_profile() {
    let mut data = Datastore::new();
    let snapshot = DailyProfile {
        date: d(2025, 5, 25),
        weight: 6200,
        activity_level: ActivityLevel::Sedentary,
    };
    let mut cmd = UpdateDailyProfileCommand::new(&data.profile, snapshot);
    assert_eq!(cmd.run(&mut data).unwrap_err(), "No user profile exists");
}

#[test]
fn manager_keeps_only_successful_commands() {
    let mut data = Datastore::new();
    let mut manager = CommandManager::new(10);
    assert!(!manager.has_commands_to_undo());
    let ok = manager.execute_command(&mut data, AppCommand::AddFood(AddFoodCommand::new(apple())));
    assert!(ok.is_ok());
    let dup = manager.execute_command(&mut data, AppCommand::AddFood(AddFoodCommand::new(apple())));
    assert!(dup.is_err());
    assert_eq!(manager.get_undo_stack_size(), 1);
    assert!(manager.has_commands_to_undo());
}

#[test]
fn manager_undo_pops_the_most_recent() {
    let mut data = Datastore::new();
    let mut manager = CommandManager::new(10);
    manager
        .execute_command(&mut data, AppCommand::AddFood(AddFoodCommand::new(apple())))
        .unwrap();
    manager
        .execute_command(
            &mut data,
            AppCommand::AddLogEntry(AddLogEntryCommand::new(
                d(2025, 5, 25),
                "apple".to_string(),
                100,
            )),
        )
        .unwrap();
    assert_eq!(manager.get_undo_stack_size(), 2);
    assert!(manager.undo_last_command(&mut data).is_ok());
    assert_eq!(data.logs.get_log(d(2025, 5, 25)).unwrap().entries.len(), 0);
    assert!(data.foods.get_food("apple").is_some());
    assert!(manager.undo_last_command(&mut data).is_ok());
    assert!(data.foods.get_food("apple").is_none());
    let err = manager.undo_last_command(&mut data).unwrap_err();
    assert_eq!(err, "No command to undo");
}

#[test]
fn manager_caps_the_stack() {
    let mut data = Datastore::new();
    let mut manager = CommandManager::new(2);
    for i in 0..4 {
        let food = Food::new_basic(
            format!("food{}", i),
            format!("Food {}", i),
            vec!["test".to_string()],
            100,
        );
        manager
            .execute_command(&mut data, AppCommand::AddFood(AddFoodCommand::new(food)))
            .unwrap();
    }
    assert_eq!(manager.get_undo_stack_size(), 2);
    let history = manager.get_command_history();
    assert_eq!(history, vec!["Add food: Food 2".to_string(), "Add food: Food 3".to_string()]);
}

#[test]
fn command_history_describes_each_command() {
    let mut data = Datastore::new();
    let mut manager = CommandManager::new(10);
    manager
        .execute_command(&mut data, AppCommand::AddFood(AddFoodCommand::new(apple())))
        .unwrap();
    manager
        .execute_command(
            &mut data,
            AppCommand::AddLogEntry(AddLogEntryCommand::new(
                d(2025, 5, 25),
                "apple".to_string(),
                150,
            )),
        )
        .unwrap();
    let history = manager.get_command_history();
    assert_eq!(history[0], "Add food: Apple");
    assert_eq!(history[1], "Add log entry: 1.50 servings of apple on 2025-05-25");
}

#[test]
fn history_shows_what_a_deletion_removed() {
    let mut data = Datastore::new();
    let day = d(2025, 5, 25);
    data.logs.add_entry_at(day, "apple".to_string(), 150, now_timestamp());
    let mut manager = CommandManager::new(10);
    manager
        .execute_command(&mut data, AppCommand::RemoveLogEntry(RemoveLogEntryCommand::new(day, 0)))
        .unwrap();
    let history = manager.get_command_history();
    assert_eq!(history, vec!["Remove log entry: 1.50 servings of apple on 2025-05-25".to_string()]);
}

#[test]
fn command_types_have_labels() {
    assert_eq!(CommandType::AddFood.label(), "Add Food");
    assert_eq!(CommandType::DeleteLog.label(), "Delete Log Entry");
    assert_eq!(CommandType::Other("Custom".to_string()).label(), "Custom");
    let cmd = AddFoodCommand::new(apple());
    assert_eq!(cmd.get_type().label(), "Add Food");
    assert_eq!(cmd.description(), "Add food: Apple");
}

#[test]
fn the_clock_returns_a_valid_moment() {
    let t = now_timestamp();
    assert!(Date::from_ymd(t.date.year, t.date.month, t.date.day).is_some());
    assert!(t.hour <= 23 && t.minute <= 59 && t.second <= 59);
    let today_date = today();
    assert!(Date::from_ymd(today_date.year, today_date.month, today_date.day).is_some());
}

#[test]
fn restoring_needs_a_remembered_entry() {
    let mut data = Datastore::new();
    let mut cmd = RemoveLogEntryCommand {
        date: d(2025, 5, 25),
        index: 0,
        removed_entry: None,
        executed: true,
    };
    assert_eq!(cmd.revert(&mut data).unwrap_err(), "No entry to restore");
}
