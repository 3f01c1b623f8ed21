//! A configuration manager: nested configuration documents are flattened
//! into dotted keys, each key holds a typed value with validation rules, and
//! the manager answers lookups, updates, exports and validation requests.
pub mod text;
pub mod json;
pub mod rules;
pub mod value;
pub mod table;
pub mod parsers;
pub mod reload;
pub mod example;
pub mod laws;
