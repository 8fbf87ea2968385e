//! Stable diagnostic codes, one per error category, for programmatic matching.
use vstd::prelude::*;

verus! {

/// Required environment variable not set.
pub const MISSING_VAR: &'static str = "procenv::missing_var";

/// Environment variable contains invalid UTF-8.
pub const INVALID_UTF8: &'static str = "procenv::invalid_utf8";

/// Value failed to parse as expected type.
pub const PARSE_ERROR: &'static str = "procenv::parse_error";

/// Multiple configuration errors occurred.
pub const MULTIPLE_ERRORS: &'static str = "procenv::multiple_errors";

/// Invalid profile name specified.
pub const INVALID_PROFILE: &'static str = "procenv::invalid_profile";

/// Provider operation failed.
pub const PROVIDER_ERROR: &'static str = "procenv::provider_error";

/// Validation constraint violated.
pub const VALIDATION_ERROR: &'static str = "procenv::validation_error";

/// Individual field validation error.
pub const FIELD_VALIDATION_ERROR: &'static str = "procenv::field_validation_error";

/// Configuration file not found.
pub const FILE_NOT_FOUND: &'static str = "procenv::file::not_found";

/// Configuration file could not be read.
pub const FILE_READ_ERROR: &'static str = "procenv::file::read_error";

/// Configuration file has an unknown format.
pub const FILE_UNKNOWN_FORMAT: &'static str = "procenv::file::unknown_format";

/// Configuration file parsing failed.
pub const FILE_PARSE_ERROR: &'static str = "procenv::file::parse_error";

} // verus!
