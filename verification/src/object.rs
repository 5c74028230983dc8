//! The object model: a closed union of typed values, dictionaries and streams.

use vstd::prelude::*;
use vstd::string::*;
use crate::error::Error;

verus! {

/// The number and the generation of an indirect object.
pub type ObjectId = (u32, u16);

/// How a string was written: in parentheses or in hexadecimal digits.
#[derive(Clone, Copy, Debug, PartialEq, Eq, Structural)]
pub enum StringFormat {
    Literal,
    Hexadecimal,
}

/// A real number, held as the bit pattern of its single-precision value.
#[derive(Clone, Copy, Debug, PartialEq, Eq, Structural)]
pub struct Real {
    pub bits: u32,
}

/// A value of the object model.
#[derive(Debug, PartialEq)]
pub enum Object {
    Null,
    Boolean(bool),
    Integer(i64),
    Real(Real),
    Name(Vec<u8>),
    String(Vec<u8>, StringFormat),
    Array(Vec<Object>),
    Dictionary(Dictionary),
    Stream(Stream),
    Reference(ObjectId),
}

/// A list of keyed objects. A lookup finds the first entry under a key.
#[derive(Debug, PartialEq)]
pub struct Dictionary {
    pub entries: Vec<(Vec<u8>, Object)>,
}

/// A dictionary with the bytes it describes.
#[derive(Debug, PartialEq)]
pub struct Stream {
    pub dict: Dictionary,
    pub content: Vec<u8>,
    pub allows_compression: bool,
    pub start_position: Option<usize>,
}

/// The mathematical value of an [`Object`].
pub enum ObjectView {
    Null,
    Boolean(bool),
    Integer(i64),
    Real(Real),
    Name(Seq<u8>),
    String(Seq<u8>, StringFormat),
    Array(Seq<ObjectView>),
    Dictionary(Seq<(Seq<u8>, ObjectView)>),
    Stream(StreamView),
    Reference(ObjectId),
}

/// The mathematical value of a [`Stream`].
pub struct StreamView {
    pub dict: Seq<(Seq<u8>, ObjectView)>,
    pub content: Seq<u8>,
    pub allows_compression: bool,
    pub start_position: Option<usize>,
}

/// The value of an object: every vector in it taken as a sequence.
pub open spec fn object_view(o: Object) -> ObjectView
    decreases o,
{
    match o {
        Object::Null => ObjectView::Null,
        Object::Boolean(b) => ObjectView::Boolean(b),
        Object::Integer(i) => ObjectView::Integer(i),
        Object::Real(r) => ObjectView::Real(r),
        Object::Name(n) => ObjectView::Name(n@),
        Object::String(s, f) => ObjectView::String(s@, f),
        Object::Array(items) => ObjectView::Array(
            Seq::new(
                items@.len(),
                |i: int|
                    if 0 <= i < items@.len() {
                        object_view(items@[i])
                    } else {
                        ObjectView::Null
                    },
            ),
        ),
        Object::Dictionary(d) => ObjectView::Dictionary(dictionary_view(d)),
        Object::Stream(s) => ObjectView::Stream(stream_view(s)),
        Object::Reference(id) => ObjectView::Reference(id),
    }
}

/// The entries of a dictionary, in order, each taken by its value.
pub open spec fn dictionary_view(d: Dictionary) -> Seq<(Seq<u8>, ObjectView)>
    decreases d,
{
    Seq::new(
        d.entries@.len(),
        |i: int|
            if 0 <= i < d.entries@.len() {
                (d.entries@[i].0@, object_view(d.entries@[i].1))
            } else {
                (Seq::empty(), ObjectView::Null)
            },
    )
}

/// The value of a stream.
pub open spec fn stream_view(s: Stream) -> StreamView
    decreases s,
{
    StreamView {
        dict: dictionary_view(s.dict),
        content: s.content@,
        allows_compression: s.allows_compression,
        start_position: s.start_position,
    }
}

/// The values of a sequence of objects.
pub open spec fn object_views(items: Seq<Object>) -> Seq<ObjectView> {
    Seq::new(items.len(), |i: int| items[i]@)
}

/// The value of an array is the array of its items' values.
pub proof fn lemma_array_view(items: Vec<Object>)
    ensures
        Object::Array(items)@ == ObjectView::Array(object_views(items@)),
{
    assert(Object::Array(items)@->Array_0 =~= object_views(items@));
}

impl View for Object {
    type V = ObjectView;

    open spec fn view(&self) -> ObjectView {
        object_view(*self)
    }
}

impl View for Dictionary {
    type V = Seq<(Seq<u8>, ObjectView)>;

    open spec fn view(&self) -> Seq<(Seq<u8>, ObjectView)> {
        dictionary_view(*self)
    }
}

impl View for Stream {
    type V = StreamView;

    open spec fn view(&self) -> StreamView {
        stream_view(*self)
    }
}

/// A copy of a byte vector.
pub fn copy_bytes(bytes: &Vec<u8>) -> (res: Vec<u8>)
    ensures
        res@ == bytes@,
{
    let res = bytes.clone();
    assert(res@ =~= bytes@);
    res
}

/// Whether two byte strings hold the same bytes.
pub fn bytes_eq(a: &[u8], b: &[u8]) -> (res: bool)
    ensures
        res == (a@ == b@),
{
    if a.len() != b.len() {
        return false;
    }
    let mut i: usize = 0;
    while i < a.len()
        invariant
            a@.len() == b@.len(),
            i <= a.len(),
            forall|k: int| 0 <= k < i ==> a@[k] == b@[k],
        decreases a.len() - i,
    {
        if a[i] != b[i] {
            return false;
        }
        i += 1;
    }
    assert(a@ =~= b@);
    true
}

impl Object {
    /// A literal string holding the bytes of `text`.
    pub fn string_literal(text: &str) -> (res: Object)
        ensures
            res@ == ObjectView::String(text.spec_bytes(), StringFormat::Literal),
    {
        Object::String(text.as_bytes_vec(), StringFormat::Literal)
    }

    /// A name holding the bytes of `text`.
    pub fn name(text: &str) -> (res: Object)
        ensures
            res@ == ObjectView::Name(text.spec_bytes()),
    {
        Object::Name(text.as_bytes_vec())
    }

    /// The integer that this object holds.
    pub fn as_i64(&self) -> (res: Result<i64, Error>)
        ensures
            res == match self@ {
                ObjectView::Integer(i) => Ok::<i64, Error>(i),
                _ => Err(Error::ObjectType),
            },
    {
        match self {
            Object::Integer(i) => Ok(*i),
            _ => Err(Error::ObjectType),
        }
    }

    /// The bytes of the name that this object holds.
    pub fn as_name(&self) -> (res: Result<&Vec<u8>, Error>)
        ensures
            match res {
                Ok(n) => self@ == ObjectView::Name(n@),
                Err(e) => e == Error::ObjectType && !(self@ is Name),
            },
    {
        match self {
            Object::Name(n) => Ok(n),
            _ => Err(Error::ObjectType),
        }
    }

    /// The items of the array that this object holds.
    pub fn as_array(&self) -> (res: Result<&Vec<Object>, Error>)
        ensures
            match res {
                Ok(items) => self@ == ObjectView::Array(object_views(items@)),
                Err(e) => e == Error::ObjectType && !(self@ is Array),
            },
    {
        match self {
            Object::Array(items) => {
                assert(self@->Array_0 =~= object_views(items@));
                Ok(items)
            },
            _ => Err(Error::ObjectType),
        }
    }
}

impl Clone for Object {
    fn clone(&self) -> (res: Self)
        ensures
            res@ == self@,
        decreases self,
    {
        match self {
            Object::Null => Object::Null,
            Object::Boolean(b) => Object::Boolean(*b),
            Object::Integer(i) => Object::Integer(*i),
            Object::Real(r) => Object::Real(*r),
            Object::Name(n) => Object::Name(copy_bytes(n)),
            Object::String(s, f) => Object::String(copy_bytes(s), *f),
            Object::Array(items) => {
                let mut out: Vec<Object> = Vec::new();
                let mut i: usize = 0;
                while i < items.len()
                    invariant
                        *self == Object::Array(*items),
                        i <= items.len(),
                        out@.len() == i,
                        forall|k: int| 0 <= k < i ==> (#[trigger] out@[k])@ == items@[k]@,
                    decreases items.len() - i,
                {
                    assert(decreases_to!(*self => self->Array_0));
                    let item = items[i].clone();
                    out.push(item);
                    i += 1;
                }
                let res = Object::Array(out);
                assert(res@ == self@) by {
                    assert(res@->Array_0 =~= self@->Array_0);
                }
                res
            },
            Object::Dictionary(d) => Object::Dictionary(d.clone()),
            Object::Stream(s) => Object::Stream(s.clone()),
            Object::Reference(id) => Object::Reference(*id),
        }
    }
}

/// A copy of a vector of objects.
pub fn clone_objects(items: &Vec<Object>) -> (res: Vec<Object>)
    ensures
        object_views(res@) == object_views(items@),
{
    let mut out: Vec<Object> = Vec::new();
    let mut i: usize = 0;
    while i < items.len()
        invariant
            i <= items.len(),
            out@.len() == i,
            forall|k: int| 0 <= k < i ==> (#[trigger] out@[k])@ == items@[k]@,
        decreases items.len() - i,
    {
        out.push(items[i].clone());
        i += 1;
    }
    assert(object_views(out@) =~= object_views(items@));
    out
}

impl Clone for Dictionary {
    fn clone(&self) -> (res: Self)
        ensures
            res@ == self@,
        decreases self,
    {
        let mut out: Vec<(Vec<u8>, Object)> = Vec::new();
        let mut i: usize = 0;
        while i < self.entries.len()
            invariant
                i <= self.entries.len(),
                out@.len() == i,
                forall|k: int|
                    0 <= k < i ==> (#[trigger] out@[k]).0@ == self.entries@[k].0@ && out@[k].1@
                        == self.entries@[k].1@,
            decreases self.entries.len() - i,
        {
            let key = copy_bytes(&self.entries[i].0);
            let value = self.entries[i].1.clone();
            out.push((key, value));
            i += 1;
        }
        let res = Dictionary { entries: out };
        assert(res@ =~= self@);
        res
    }
}

impl Clone for Stream {
    fn clone(&self) -> (res: Self)
        ensures
            res@ == self@,
        decreases self,
    {
        Stream {
            dict: self.dict.clone(),
            content: copy_bytes(&self.content),
            allows_compression: self.allows_compression,
            start_position: self.start_position,
        }
    }
}

} // verus!
