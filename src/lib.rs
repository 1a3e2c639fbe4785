//! Rendering of single-line JSON log records into readable, coloured lines.
//!
//! - `json`: the record as a tree of values.
//! - `flatten`: the record flattened to a sorted map from path keys to text.
//! - `log`: the canonical fields (message, time, level, prefix) of a record and the
//!   additional values printed below its main line.
//! - `time`: epoch timestamps read as seconds or milliseconds, rendered as RFC 3339.
//! - `substitution`: placeholders in messages replaced by values from a context field;
//!   `message_template` configures the same substitution step by step.
//! - `filter`: the Lua script that binds a record for a filter expression, and its
//!   evaluation.
//! - `style`: terminal colours, and the text helpers that templates use.
//! - `settings`: configuration values and per-run settings.
//! - `inspect`: discovery of the keys that records hold.
//! - `process`: what to do with each input line, and the marker lines.
//! - `text`: character-level helpers on strings.

pub mod text;
pub mod time;
pub mod json;
pub mod flatten;
pub mod style;
pub mod substitution;
pub mod message_template;
pub mod filter;
pub mod settings;
pub mod log;
pub mod inspect;
pub mod process;
