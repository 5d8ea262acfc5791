//! A budget-tracked, table-driven decoder for RIFF/WAVE containers.
//!
//! The walker reads chunk after chunk from a byte buffer, decodes each field
//! of the chunk's field table with the primitive field decoder, and keeps two
//! byte budgets: what is left of the whole container and what is left of the
//! current chunk. The result is a store from dotted field paths
//! (`"fmt.sample_rate"`) to decoded values.
//!
//! Chunks tagged `fmt ` and `data` have field tables of their own; every
//! other tag, `LIST` included, is kept whole as a raw payload under an
//! `unknown<n>` prefix. `LIST` entries are not walked.

pub mod value;
pub mod decode;
pub mod store;
pub mod table;
pub mod walker;
pub mod laws;

pub use decode::read_simple_field;
pub use store::FieldStore;
pub use value::{FieldType, ParseError, ParsedValue};
pub use walker::parse_wav;
