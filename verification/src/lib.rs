//! A small verified parser for a line-oriented configuration text format.
//!
//! Each physical line of the input declares a key followed by zero or more
//! separator-delimited value fields.  A single configurable separator
//! character (space by default) splits the fields; a backslash immediately
//! before the separator escapes it; `#` starts a comment that discards the
//! whole line; duplicate keys are a hard error.  The result of a parse is a
//! flat mapping from key strings to either a single value string or an
//! ordered list of value strings.

pub mod document;
pub mod laws;
pub mod line;
pub mod number;
pub mod split;
pub mod token;
pub mod types;

pub use document::Parse;
pub use document::SuperConf;
pub use line::LineParser;
pub use number::num_or_name;
pub use split::flipflop_once;
pub use token::Token;
pub use types::SuperError;
pub use types::SuperItem;
pub use types::SuperValue;
