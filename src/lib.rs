//! Conversion between the host runtime's dynamic terms and the JSON-shaped
//! values that the expression engine reads and writes.

pub mod boundary;
pub mod codec;
pub mod errors;
pub mod laws;
pub mod term;
pub mod value;

pub use boundary::{decode_context, encode_result, BoundaryError};
pub use codec::{from_value, to_value};
pub use errors::TypeEncodingError;
pub use term::{Term, TermModel};
pub use value::{Value, ValueModel};
