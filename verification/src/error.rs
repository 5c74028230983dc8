//! Error values returned by the decoders and the text engines.

use vstd::prelude::*;

verus! {

/// A structural failure while decoding a stream.
#[derive(Clone, Copy, Debug, PartialEq, Eq, Structural)]
pub enum ParseError {
    /// The cross-reference stream's dictionary does not describe a row grid.
    InvalidXref,
    /// The content bytes are not a sequence of operators.
    InvalidContentStream,
}

/// Everything that can go wrong in this library.
#[derive(Clone, Copy, Debug, PartialEq, Eq, Structural)]
pub enum Error {
    /// A stream could not be decoded.
    Parse(ParseError),
    /// A dictionary has no entry under the requested key.
    DictKey,
    /// An object is not of the requested type.
    ObjectType,
    /// An integer does not fit the type it is needed in.
    NumericCast,
    /// An offset lies outside the content it points into.
    InvalidOffset(usize),
    /// The index block of an object stream is not text.
    InvalidObjectStream,
    /// The content ended in the middle of a row.
    UnexpectedEof,
    /// The stream's filters could not be undone.
    Decompress,
    /// The document has no page with this number.
    PageNumberNotFound(u32),
    /// The document has no page with this object id.
    PageNotFound(u32, u16),
    /// The document holds no object with this id.
    ObjectNotFound(u32, u16),
    /// A set-font operator carries no font name.
    MissingFontOperand,
    /// Bytes that the active encoding cannot turn into text.
    CharacterEncoding,
}

} // verus!
