//! Page content: an ordered sequence of operators with their operands, and
//! its passage to and from bytes through the codec that the caller supplies.

use vstd::prelude::*;
use vstd::string::*;
use crate::error::{Error, ParseError};
use crate::object::{clone_objects, object_views, Object, ObjectView, Stream};

verus! {

/// One operator with its operands.
#[derive(Debug, PartialEq)]
pub struct Operation {
    pub operator: String,
    pub operands: Vec<Object>,
}

/// A page program: operations in the order in which they are carried out.
#[derive(Debug, PartialEq)]
pub struct Content {
    pub operations: Vec<Operation>,
}

/// The mathematical value of an [`Operation`].
pub struct OperationView {
    pub operator: Seq<char>,
    pub operands: Seq<ObjectView>,
}

impl View for Operation {
    type V = OperationView;

    open spec fn view(&self) -> OperationView {
        OperationView { operator: self.operator@, operands: object_views(self.operands@) }
    }
}

/// The values of a sequence of operations.
pub open spec fn operation_views(operations: Seq<Operation>) -> Seq<OperationView> {
    Seq::new(operations.len(), |i: int| operations[i]@)
}

impl View for Content {
    type V = Seq<OperationView>;

    open spec fn view(&self) -> Seq<OperationView> {
        operation_views(self.operations@)
    }
}

impl Operation {
    /// The operation `operator` on `operands`.
    pub fn new(operator: &str, operands: Vec<Object>) -> (res: Operation)
        ensures
            res@ == (OperationView { operator: operator@, operands: object_views(operands@) }),
    {
        Operation { operator: String::from_str(operator), operands }
    }
}

impl Clone for Operation {
    fn clone(&self) -> (res: Self)
        ensures
            res@ == self@,
    {
        Operation { operator: self.operator.clone(), operands: clone_objects(&self.operands) }
    }
}

/// A copy of a vector of operations.
pub fn clone_operations(operations: &Vec<Operation>) -> (res: Vec<Operation>)
    ensures
        operation_views(res@) == operation_views(operations@),
{
    let mut out: Vec<Operation> = Vec::new();
    let mut i: usize = 0;
    while i < operations.len()
        invariant
            i <= operations.len(),
            out@.len() == i,
            forall|k: int| 0 <= k < i ==> (#[trigger] out@[k])@ == operations@[k]@,
        decreases operations.len() - i,
    {
        out.push(operations[i].clone());
        i += 1;
    }
    assert(operation_views(out@) =~= operation_views(operations@));
    out
}

impl Clone for Content {
    fn clone(&self) -> (res: Self)
        ensures
            res@ == self@,
    {
        Content { operations: clone_operations(&self.operations) }
    }
}

impl Content {
    /// The content that a parser's outcome stands for: the operations that
    /// it read, or `InvalidContentStream` where it read none.
    pub fn from_parsed(parsed: Option<Vec<Operation>>) -> (res: Result<Content, Error>)
        ensures
            match parsed {
                Some(operations) => res matches Ok(content) && content.operations == operations,
                None => res matches Err(e) && e == Error::Parse(ParseError::InvalidContentStream),
            },
    {
        match parsed {
            Some(operations) => Ok(Content { operations }),
            None => Err(Error::Parse(ParseError::InvalidContentStream)),
        }
    }

    /// Decodes content operations with `parse_operators`, the parser that
    /// the caller supplies.
    pub fn decode<P>(data: &[u8], parse_operators: P) -> (res: Result<Content, Error>) where
        P: FnOnce(&[u8]) -> Option<Vec<Operation>>,

        requires
            parse_operators.requires((data,)),
        ensures
            match res {
                Ok(content) => parse_operators.ensures((data,), Some(content.operations)),
                Err(e) => e == Error::Parse(ParseError::InvalidContentStream)
                    && parse_operators.ensures((data,), None),
            },
    {
        Content::from_parsed(parse_operators(data))
    }

    /// Encodes the operations with `encode_operators`, the writer that the
    /// caller supplies.
    pub fn encode<E>(&self, encode_operators: E) -> (res: Result<Vec<u8>, Error>) where
        E: FnOnce(&Vec<Operation>) -> Vec<u8>,

        requires
            encode_operators.requires((&self.operations,)),
        ensures
            res matches Ok(bytes) && encode_operators.ensures((&self.operations,), bytes),
    {
        Ok(encode_operators(&self.operations))
    }
}

impl Stream {
    /// Decodes the content of a stream whose filters are undone.
    pub fn decode_content<P>(&self, parse_operators: P) -> (res: Result<Content, Error>) where
        P: FnOnce(&[u8]) -> Option<Vec<Operation>>,

        requires
            forall|data: &[u8]| data@ == self@.content ==> parse_operators.requires((data,)),
        ensures
            exists|data: &[u8]|
                data@ == self@.content && match res {
                    Ok(content) => parse_operators.ensures((data,), Some(content.operations)),
                    Err(e) => e == Error::Parse(ParseError::InvalidContentStream)
                        && parse_operators.ensures((data,), None),
                },
    {
        Content::decode(self.content.as_slice(), parse_operators)
    }
}

/// Whether `parse` reads back what `encode` wrote: the operations that it
/// reads from the bytes of an operation sequence are that sequence.
pub open spec fn reads_back<P: FnOnce(&[u8]) -> Option<Vec<Operation>>, E: FnOnce(
    &Vec<Operation>,
) -> Vec<u8>>(parse: P, encode: E) -> bool {
    forall|operations: &Vec<Operation>, bytes: Vec<u8>, data: &[u8], back: Option<Vec<Operation>>|
        #![trigger encode.ensures((operations,), bytes), parse.ensures((data,), back)]
        encode.ensures((operations,), bytes) && data@ == bytes@ && parse.ensures((data,), back)
            ==> (back matches Some(again) && operation_views(again@) == operation_views(
            operations@,
        ))
}

/// With a codec that reads back what it wrote, decoding is stable: content
/// that was decoded, encoded and decoded again is the content of the first
/// decoding.
pub proof fn lemma_decode_is_stable<P: FnOnce(&[u8]) -> Option<Vec<Operation>>, E: FnOnce(
    &Vec<Operation>,
) -> Vec<u8>>(
    parse: P,
    encode: E,
    first: Content,
    bytes: Vec<u8>,
    data: &[u8],
    second: Option<Vec<Operation>>,
)
    requires
        reads_back(parse, encode),
        encode.ensures((&first.operations,), bytes),
        data@ == bytes@,
        parse.ensures((data,), second),
    ensures
        second matches Some(again) && operation_views(again@) == first@,
{
}

} // verus!
