//! String-like enumerations: every variant has a textual representation,
//! and the table of representations converts in both directions.
//!
//! [`declaration`] holds the declared variants and the pairs they normalize
//! to, [`preprocess`] reads them from a parsed enumeration, [`table`] holds
//! the mapping table with its conversions, [`text`] decides prefixes and
//! equality of strings, and [`laws`] states what holds of every table.

pub mod declaration;
pub mod laws;
pub mod preprocess;
pub mod table;
pub mod text;
