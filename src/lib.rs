//! A pattern-based field-extraction engine: templates mixing literal text and
//! typed extractors are compiled into matcher programs, loaded into a
//! repository from weakly-typed records, matched against text lines and
//! checked against their own worked examples.
pub mod text;
pub mod kinds;
pub mod fields;
pub mod program;
pub mod grammar;
pub mod pattern;
pub mod matcher;
pub mod validate;
pub mod loader;
