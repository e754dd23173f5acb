//! A scanning cursor over an immutable text buffer.
//!
//! A [`StringScanner`] walks a borrowed `&str` from left to right. Each
//! scanning operation matches a regular expression against the unconsumed
//! rest of the buffer and remembers where the match was found, so that the
//! matched text and the text around it can be read back afterwards.
//!
//! All offsets are byte offsets into the UTF-8 encoding of the buffer, and
//! every offset the scanner keeps lies on a character boundary.
//!
//! - [`scanner`] holds the scanner and its operations.
//! - [`model`] describes the scanner as a mathematical value; the contracts
//!   of the operations are stated over it.
//! - [`laws`] proves what holds of every scanner.
//! - [`matcher`] is the door to the pattern matcher, the one part that is
//!   believed and not proved.
//! - [`text`] cuts strings at byte offsets.

pub mod error;
pub mod laws;
pub mod matcher;
pub mod model;
pub mod scanner;
pub mod text;

pub use error::ScanError;
pub use model::ScannerView;
pub use scanner::StringScanner;
