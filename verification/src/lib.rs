//! Verified sheet selection, extraction and merge logic for spreadsheet
//! workbooks.  The workbook container itself comes from the
//! `umya_spreadsheet` crate; this library owns the rules: which sheets an
//! extraction keeps, how candidate sheet names are normalized and kept
//! unique, and how several workbooks are merged into one.

pub mod book;
pub mod chars;
pub mod digits;
pub mod errors;
pub mod filter;
pub mod laws;
pub mod merge;
pub mod normalize;
