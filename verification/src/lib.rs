//! A reactive spreadsheet engine: cells hold formulas, formulas may
//! reference other cells (including rectangular ranges), and every change
//! re-evaluates the rest of the sheet. The formula language itself is the
//! business of an outside engine; everything around it — cycle detection,
//! range expansion, the cell store, the sweep, and the wire commands — is
//! verified here.
pub mod coordinator;
pub mod engine;
pub mod eval;
pub mod laws;
pub mod names;
pub mod protocol;
pub mod store;
pub mod value;
