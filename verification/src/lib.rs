//! Core of the Burkaz search index: object addresses, the binary layout of
//! stored objects and terms, schema descriptions and the error slot.
pub mod address;
pub mod document;
pub mod encoding;
pub mod error;
pub mod index;
pub mod serializable;
pub mod object;
pub mod schema;
pub mod term;

pub use address::BurkazObjectAddr;
