//! Combat-log analysis logic: number and duration formatting, encounter
//! history and classification, counter triggers, and phase colors.

pub mod text;
pub mod formatting;
pub mod encounter;
pub mod combat;
pub mod names;
pub mod summary;
pub mod dsl;
pub mod signals;
pub mod matching;
pub mod counter;
pub mod timeline;
pub mod usage;
pub mod series;
pub mod selection;
