//! Static-text localization: translation resources written in a small
//! key-value syntax are parsed into per-locale phrase mappings, and a catalog
//! of those mappings answers lookups, falling back to the original text when
//! no translation is found.

pub mod catalog;
pub mod parser;
