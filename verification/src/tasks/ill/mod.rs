//! Maintenance task: interlanguage links whose target already has a Japanese
//! article.

pub mod caches;
pub mod evaluation_laws;
pub mod grammar_laws;
pub mod jawiki;
pub mod lookup_laws;
pub mod pace;
pub mod parse;
pub mod parse_laws;
pub mod report;
pub mod report_laws;
pub mod round;
pub mod round_laws;
pub mod scan;
pub mod scan_laws;
pub mod step_laws;
pub mod wikidata;
