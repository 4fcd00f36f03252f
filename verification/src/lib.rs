//! An assembler for a small fixed-width 16-bit instruction set: it turns
//! assembly text into a binary machine-code image of 16-bit words.
//!
//! The pipeline runs in four verified stages over the source lines:
//! classification and validation against the instruction grammar
//! ([`validate`]), pseudo-instruction expansion ([`expand`]), two-pass label
//! resolution ([`labels`]), and bit-field encoding ([`encode`]).
//! [`pipeline::assemble_lines`] chains them; [`bytes::words_to_bytes`] lays
//! the words out big-endian for persisting.  Reading source text and writing
//! the image are left to the caller.

pub mod bytes;
pub mod chars;
pub mod encode;
pub mod error;
pub mod expand;
pub mod fmt;
pub mod forms;
pub mod imm;
pub mod labels;
pub mod literal;
pub mod laws;
pub mod pipeline;
pub mod scan;
pub mod validate;
