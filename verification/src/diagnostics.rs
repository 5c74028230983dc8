//! What the decoders and the text engines pass over without failing: each
//! anomaly is handed back as a value beside the result.

use vstd::prelude::*;

verus! {

/// An anomaly that was passed over.
#[derive(Clone, Copy, Debug, PartialEq, Eq, Structural)]
pub enum Warning {
    /// A row of a cross-reference stream is of a type other than 0, 1 and
    /// 2; the object number of the row is given.
    UnknownRowType(u32),
    /// An object stream declares under `N` another number of objects than
    /// its index lists.
    WrongObjectCount,
    /// The index of an object stream places the object of this number at or
    /// past the end of the content.
    OffsetOutOfBounds(u32),
    /// The object of this number in an object stream could not be parsed.
    ObjectNotParsed(u32),
    /// The font at this place among the fonts of a page has an encoding
    /// that did not resolve.
    UnresolvedFont(usize),
    /// The text-showing operation at this place in a page program was
    /// passed with no encoding active.
    TextWithoutEncoding(usize),
}

} // verus!
