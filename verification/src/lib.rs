//! A small diet-tracking library: a food catalog with simple and composite
//! items, per-date consumption logs, a user profile with daily snapshots,
//! energy-expenditure estimation, an undoable command layer, and a
//! pipe-delimited line format for persistence.
//!
//! Quantities that are fractional in everyday use (calories, servings,
//! weights, heights) are carried as integers in hundredths of their unit,
//! so every computation here is exact integer arithmetic.

pub mod calorie_calculator;
pub mod clock;
pub mod command;
pub mod command_manager;
pub mod datastore;
pub mod date;
pub mod food;
pub mod food_commands;
pub mod food_repository;
pub mod log;
pub mod log_commands;
pub mod log_repository;
pub mod profile;
pub mod profile_commands;
pub mod profile_repository;
pub mod text;
