//! Application configuration.
//!
//! `[server]` and `[telemetry]` are common to all services, and each service
//! claims a section named after itself, ignoring the rest. A section merges
//! five layers, lowest precedence first: the section's defaults, a TOML file,
//! inline TOML, alias variables a section declares per field, and
//! `QUIZ_ARENA_<SECTION>_<FIELD>`.

pub mod env;
pub mod load;
pub mod section;
pub mod value;
