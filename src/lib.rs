//! Layered configuration resolution: a canonical value tree, type coercion,
//! environment mapping, deep merging, provenance and error accumulation.
//!
//! Layers are applied in ascending priority: defaults (with the selected
//! profile's overrides), configuration files in order, prefixed environment
//! variables, then direct field-to-variable mappings. [`resolve::resolve`]
//! runs a whole resolution from a field schema; [`builder::ConfigBuilder`]
//! merges layers on its own. Reading files and the process environment is
//! left to the caller, who hands in what was read.
pub mod value;
pub mod merge;
pub mod text;
pub mod coerce;
pub mod env;
pub mod diagnostic_codes;
pub mod validation;
pub mod error;
pub mod sources;
pub mod location;
pub mod raw_toml;
pub mod format;
pub mod origin;
pub mod builder;
pub mod resolve;
