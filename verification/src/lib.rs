//! Edit capture for dictation: finding the text a dictation inserted,
//! following the user's corrections of it, and learning words that are
//! corrected the same way in independent dictations; plus the rules for the
//! user's personal devices.
pub mod anchor;
pub mod capture;
pub mod devices;
pub mod field;
pub mod learner;
pub mod learning;
pub mod text;
pub mod watch;
