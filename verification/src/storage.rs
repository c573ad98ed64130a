//! A store of settings as one JSON document, addressed by dotted keys.

pub mod key_parser;
pub mod persistent;
