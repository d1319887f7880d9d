//! Resolution of short path segments to redirect targets.
//!
//! A table of exact entries and ordered pattern rules is read once from raw
//! key/value pairs (`environment`) and then answers lookups without ever
//! changing (`uri_mappings`). `text` reads decimal numerals and key
//! prefixes; `trusted` holds every call whose contract is taken on trust.

pub mod environment;
pub mod text;
pub mod trusted;
pub mod uri_mappings;
