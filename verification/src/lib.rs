//! A personal nutrition tracker core: a catalog of atomic and composite
//! foods, per-day consumption logs with single-step undo, and date-range
//! calorie summaries against a target.
//!
//! Composite foods are flattened to atomic components at construction time,
//! so no cycle detection is ever needed at query time. Daily logs keep an
//! undo stack of reversible actions; every mutation pushes its inverse.

pub mod daily_log;
pub mod date;
pub mod error;
pub mod food_database;
pub mod food_log;
pub mod num;
pub mod user_profile;
pub mod util;
