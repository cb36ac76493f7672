//! A small line-oriented text search library.
//!
//! Given a query string, a case-sensitivity choice and a block of text, the
//! library returns every line of the text that contains the query, in the
//! original order and with the original casing, and can render a matching
//! line with its matched spans wrapped in highlight markers. A configuration
//! resolver turns raw command-line tokens and the state of one environment
//! variable into a resolved search configuration under a fixed precedence
//! rule.

pub mod chars;
pub mod config;
pub mod render;
pub mod search;

pub use config::Config;
pub use config::ConfigError;
pub use config::InputType;
pub use config::Resolution;
pub use render::render;
pub use search::search;
