//! Dice notation: parsing `[N]dM` strings into tokens, rolling the dice they
//! ask for, and writing the report of the rolls with their totals.

pub mod report;
pub mod roller;
pub mod token;
