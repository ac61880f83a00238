//! A verified spreadsheet calculation engine.
//!
//! The engine stores typed cell values in sparse tables addressed by
//! `(row, column)` coordinates and evaluates simple formulas over them.
//! Two interchangeable front ends expose the same contract:
//!
//! * [`table::Table`] — an in-process sparse store, used directly;
//! * [`bridge::SafeTable`] — an exclusively owned session over an opaque
//!   handle into a [`bridge::Runtime`] that owns the table resources,
//!   with validated text marshaling and a single, explicit release point.
//!
//! Numeric cell values are carried as the 64-bit IEEE-754 bit patterns of
//! the numbers they denote, so storage and retrieval are exact for every
//! value, finite or not; turning bit patterns back into machine floats is
//! the caller's concern.

pub mod cell;
pub mod formula;
pub mod table;
pub mod bridge;
