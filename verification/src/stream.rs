//! Streams: a dictionary, the bytes it describes, and the undoing of filters.

use vstd::prelude::*;
use vstd::string::*;
use crate::dictionary::{dict_has, dict_set, dict_without};
use crate::error::Error;
use crate::object::{Dictionary, Object, ObjectView, Stream, StreamView};

verus! {

/// The `Length` entry for content of `len` bytes: `len`, or the largest
/// integer where `len` does not fit.
pub open spec fn length_value(len: nat) -> i64 {
    if len <= i64::MAX {
        len as i64
    } else {
        i64::MAX
    }
}

/// The stream as it stands once its filters are undone: `content` in place
/// of its bytes, the entries `DecodeParms` and `Filter` gone, and `Length`
/// set to the new length.
pub open spec fn plain_stream(s: StreamView, content: Seq<u8>) -> StreamView {
    StreamView {
        dict: dict_set(
            dict_without(dict_without(s.dict, "DecodeParms".spec_bytes()), "Filter".spec_bytes()),
            "Length".spec_bytes(),
            ObjectView::Integer(length_value(content.len())),
        ),
        content: content,
        allows_compression: s.allows_compression,
        start_position: s.start_position,
    }
}

/// The `Length` entry for content of `len` bytes.
fn length_object(len: usize) -> (res: Object)
    ensures
        res@ == ObjectView::Integer(length_value(len as nat)),
{
    let wide: u64 = len as u64;
    if wide <= 0x7fff_ffff_ffff_ffff {
        Object::Integer(wide as i64)
    } else {
        Object::Integer(0x7fff_ffff_ffff_ffff)
    }
}

impl Stream {
    /// A stream of `content` under `dict`, with `Length` set to the length
    /// of the content.
    pub fn new(dict: Dictionary, content: Vec<u8>) -> (res: Stream)
        ensures
            res@ == (StreamView {
                dict: dict_set(
                    dict@,
                    "Length".spec_bytes(),
                    ObjectView::Integer(length_value(content@.len())),
                ),
                content: content@,
                allows_compression: true,
                start_position: None,
            }),
    {
        let mut dict = dict;
        dict.set("Length".as_bytes_vec(), length_object(content.len()));
        Stream { dict, content, allows_compression: true, start_position: None }
    }

    /// Whether the dictionary names a filter.
    pub fn is_compressed(&self) -> (res: bool)
        ensures
            res == dict_has(self@.dict, "Filter".spec_bytes()),
    {
        self.dict.has("Filter".as_bytes())
    }

    /// Puts `content` in place of the stream's bytes and sets `Length` to
    /// its length. The rest of the dictionary stays as it is.
    pub fn set_content(&mut self, content: Vec<u8>)
        ensures
            final(self)@ == (StreamView {
                dict: dict_set(
                    old(self)@.dict,
                    "Length".spec_bytes(),
                    ObjectView::Integer(length_value(content@.len())),
                ),
                content: content@,
                allows_compression: old(self)@.allows_compression,
                start_position: old(self)@.start_position,
            }),
    {
        self.dict.set("Length".as_bytes_vec(), length_object(content.len()));
        self.content = content;
    }

    /// Puts `content` in place of the stream's bytes as content that no
    /// filter applies to.
    pub fn set_plain_content(&mut self, content: Vec<u8>)
        ensures
            final(self)@ == plain_stream(old(self)@, content@),
    {
        self.dict.remove("DecodeParms".as_bytes());
        self.dict.remove("Filter".as_bytes());
        self.dict.set("Length".as_bytes_vec(), length_object(content.len()));
        self.content = content;
    }

    /// Undoes the stream's filters with `inflate`, the codec that the caller
    /// supplies. Where `inflate` fails, its error is returned and the stream
    /// stays as it was.
    pub fn decompress<F>(&mut self, inflate: F) -> (res: Result<(), Error>) where
        F: FnOnce(&Stream) -> Result<Vec<u8>, Error>,

        requires
            inflate.requires((&*old(self),)),
        ensures
            match res {
                Ok(()) => exists|data: Vec<u8>|
                    inflate.ensures((&*old(self),), Ok(data)) && final(self)@ == plain_stream(
                        old(self)@,
                        data@,
                    ),
                Err(e) => inflate.ensures((&*old(self),), Err(e)) && *final(self) == *old(self),
            },
    {
        match inflate(&*self) {
            Ok(data) => {
                self.set_plain_content(data);
                Ok(())
            },
            Err(e) => Err(e),
        }
    }
}

} // verus!
