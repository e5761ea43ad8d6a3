//! Daily feeding statistics computed from a CSV export.
//!
//! The text is read into a table whose header names its columns; the `Flaske`
//! column holds the amount of each meal and the `Dato` column its date.
//! From the table come three figures: the sum of the amounts, the number of
//! dated rows and the largest amount.

pub mod error;
pub mod csv;
pub mod number;
pub mod table;
pub mod stats;
pub mod response;
pub mod laws;
