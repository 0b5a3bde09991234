//! Turns hand-written drink log lines into typed records and estimates how many
//! standard drinks each record stands for.
//!
//! A line such as `(5 jan, brunch), ~2, mimosa, 12%, 6 oz` is split into its fields
//! ([`import::RawEntry`]); the fields are read as a quantity, an ABV and a volume,
//! each end of a range exact or approximate; the date field is resolved against the
//! line before it ([`import::DateContext`]); the drink is told apart from the drinks
//! met so far ([`import::DrinkSet`]); and an entry is reckoned into standard drinks
//! ([`reports::DrinkAggregator`]).
//!
//! Magnitudes are exact fixed-point decimals ([`decimal::Decimal`]), so every rule
//! of the pipeline is stated and proved over integers. The shape of a line and of its
//! fields is left to the pattern matcher, and the reading of month names to the date
//! parser; the contracts name what these two answer and state everything that
//! follows from it.

pub mod calendar;
pub mod decimal;
pub mod entry;
pub mod error;
pub mod form;
pub mod import;
pub mod models;
pub mod reports;
pub mod text;
