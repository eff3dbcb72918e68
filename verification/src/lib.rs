//! A reader for a strongly-typed textual data-description notation.
//!
//! A document is a whitespace-separated sequence of data items.  An item is
//! either a primitive item — a primitive-type keyword, an optional `$`/`%`
//! name, and a scalar, a brace-delimited vector, or a matrix of such
//! vectors — or a custom record: a structure identifier, an optional name,
//! an optional parenthesized property list, and a brace-delimited body of
//! nested items.  Parsing either consumes the whole input and returns the
//! ordered top-level items, or stops at the first offending byte with a
//! syntax error carrying the byte offset and the construct that was
//! expected.
//!
//! The grammar itself is stated as specification functions over the input
//! byte sequence (module `grammar`); every parsing function is proved to
//! return exactly what the grammar denotes.
//!
//! Floating-point literals are kept as their source text: machine floats
//! stay outside this library, and a consumer converts the text where it
//! needs a number.

use vstd::prelude::*;

pub mod grammar;
pub mod parser;
pub mod types;

pub use parser::SyntaxError;
pub use parser::data_file;
pub use parser::data_item;
pub use parser::primitive_item;
pub use types::DataItem;
pub use types::Name;
pub use types::PrimitiveMatrix;
pub use types::PrimitiveValue;
pub use types::PrimitiveVector;
pub use types::Ref;
pub use types::Scope;
pub use types::Ty;
