//! A verified core for a page-description document format: cross-reference
//! streams, object streams, content operators, and the text engines that walk
//! them.

pub mod content;
pub mod diagnostics;
pub mod dictionary;
pub mod document;
pub mod document_insert;
pub mod document_text;
pub mod encoding;
pub mod error;
pub mod extract;
pub mod font;
pub mod index_block;
pub mod object;
pub mod object_stream;
pub mod replace;
pub mod replace_laws;
pub mod search;
pub mod stream;
pub mod substitute;
pub mod text;
pub mod xref;
pub mod xref_laws;
pub mod xref_stream;

pub use content::{Content, Operation};
pub use diagnostics::Warning;
pub use document::{Document, Page};
pub use encoding::Encoding;
pub use error::{Error, ParseError};
pub use font::Font;
pub use object::{Dictionary, Object, ObjectId, Real, Stream, StringFormat};
pub use object_stream::ObjectStream;
pub use text::{substr, substring};
pub use xref::{Xref, XrefEntry, XrefType};
pub use xref_stream::decode_xref_stream;
