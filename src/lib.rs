//! Keyword search over the extracted text of a collection of PDF documents.
//!
//! The modules, leaves first:
//! - `text`: substring search, line splitting, trimming and capping over
//!   character sequences;
//! - `convert`: the std conversions and lower-casing the rest relies on;
//! - `query`: the keywords of a raw query;
//! - `matcher`: case-insensitive matching and context windows, in
//!   single-keyword, multi-keyword and per-page modes;
//! - `locate`: exact and estimated page resolution;
//! - `search`: the outcome of searching one document;
//! - `cache`: the bounded text cache;
//! - `progress`: the progress counter of a run;
//! - `aggregate`: the ordered result list of a run;
//! - `document`: a whole document for display, and the viewer's page.

pub mod aggregate;
pub mod cache;
pub mod convert;
pub mod document;
pub mod locate;
pub mod matcher;
pub mod progress;
pub mod query;
pub mod search;
pub mod text;
