//! Object streams: many indirect objects packed into the content of one
//! stream, behind an index block that says where each one starts.

use vstd::prelude::*;
use vstd::slice::slice_subrange;
use vstd::string::*;
use vstd::utf8::{decode_utf8, encode_utf8_decode_utf8, valid_utf8};
use std::collections::BTreeMap;
use crate::dictionary::dict_get;
use crate::error::Error;
use crate::diagnostics::Warning;
use crate::index_block::{
    entries_from_numbers, index_entries, index_warnings, numbers, read_numbers,
    warnings_from_numbers,
};
use crate::object::{Object, ObjectId, ObjectView, Stream, StreamView};
use crate::stream::plain_stream;
use crate::text::chars_of;

verus! {

/// The objects that one object stream packs, each under its number and the
/// generation 0.
#[derive(Debug)]
pub struct ObjectStream {
    pub objects: BTreeMap<ObjectId, Object>,
}

/// The index of an object stream whose content is plain: for each object the
/// stream lists, its number and the place in the content where it starts.
///
/// Content without bytes lists nothing. Otherwise `First` must be an integer
/// that the content reaches, the bytes before it must be text, and `N` must be
/// an integer.
pub open spec fn object_stream_index(s: StreamView) -> Result<Seq<(u32, usize)>, Error> {
    if s.content.len() == 0 {
        Ok(Seq::empty())
    } else {
        match dict_get(s.dict, "First".spec_bytes()) {
            None => Err(Error::DictKey),
            Some(ObjectView::Integer(first)) => if first < 0 || first > usize::MAX {
                Err(Error::NumericCast)
            } else if first > s.content.len() {
                Err(Error::InvalidOffset(first as usize))
            } else if !valid_utf8(s.content.take(first as int)) {
                Err(Error::InvalidObjectStream)
            } else {
                match dict_get(s.dict, "N".spec_bytes()) {
                    None => Err(Error::DictKey),
                    Some(ObjectView::Integer(_)) => Ok(
                        index_entries(
                            decode_utf8(s.content.take(first as int)),
                            first as nat,
                            s.content.len(),
                        ),
                    ),
                    Some(_) => Err(Error::ObjectType),
                }
            },
            Some(_) => Err(Error::ObjectType),
        }
    }
}

/// The objects bound by the first `k` bindings: each number whose object was
/// parsed, under generation 0, a later binding replacing an earlier one of
/// the same number.
pub open spec fn bound_objects(bindings: Seq<(u32, Option<Object>)>, k: nat) -> Map<
    ObjectId,
    Object,
>
    decreases k,
{
    if k == 0 {
        Map::empty()
    } else {
        let before = bound_objects(bindings, (k - 1) as nat);
        match bindings[k - 1].1 {
            Some(object) => before.insert((bindings[k - 1].0, 0u16), object),
            None => before,
        }
    }
}

/// The warnings of the index of an object stream whose content is plain:
/// those of its index block, and none where there is no index to read.
pub open spec fn object_stream_warnings(s: StreamView) -> Seq<Warning> {
    if s.content.len() == 0 || object_stream_index(s) is Err {
        Seq::empty()
    } else {
        match (dict_get(s.dict, "First".spec_bytes()), dict_get(s.dict, "N".spec_bytes())) {
            (Some(ObjectView::Integer(first)), Some(ObjectView::Integer(declared))) => index_warnings(
                numbers(decode_utf8(s.content.take(first as int))),
                declared,
                first as nat,
                s.content.len(),
            ),
            _ => Seq::empty(),
        }
    }
}

/// The warnings for the first `k` bindings: one for each object that was
/// not parsed, in order.
pub open spec fn unparsed_objects(bindings: Seq<(u32, Option<Object>)>, k: nat) -> Seq<Warning>
    decreases k,
{
    if k == 0 || k > bindings.len() {
        Seq::empty()
    } else {
        let before = unparsed_objects(bindings, (k - 1) as nat);
        match bindings[k - 1].1 {
            Some(_) => before,
            None => before.push(Warning::ObjectNotParsed(bindings[k - 1].0)),
        }
    }
}

/// Whether `bindings` hold, for each entry in turn, its number and what
/// `parse` gave at its place in `content`.
pub open spec fn parsed_by<P: Fn(&[u8], usize) -> Option<Object>>(
    parse: P,
    content: Seq<u8>,
    entries: Seq<(u32, usize)>,
    bindings: Seq<(u32, Option<Object>)>,
) -> bool {
    &&& bindings.len() == entries.len()
    &&& exists|bytes: &[u8]|
        bytes@ == content && forall|i: int|
            0 <= i < entries.len() ==> (#[trigger] bindings[i]).0 == entries[i].0 && parse.ensures(
                (bytes, entries[i].1),
                bindings[i].1,
            )
}

/// `core::str::from_utf8` of the standard library: the text whose UTF-8
/// form is `bytes`, and nothing where `bytes` are not valid UTF-8.
#[verifier::external_body]
fn text_of(bytes: &[u8]) -> (res: Option<&str>)
    ensures
        match res {
            Some(text) => valid_utf8(bytes@) && text.spec_bytes() == bytes@,
            None => !valid_utf8(bytes@),
        },
{
    core::str::from_utf8(bytes).ok()
}

impl ObjectStream {
    /// Reads the index of a stream whose content is plain.
    pub fn index(stream: &Stream) -> (res: Result<Vec<(u32, usize)>, Error>)
        ensures
            match res {
                Ok(entries) => object_stream_index(stream@) == Ok::<Seq<(u32, usize)>, Error>(
                    entries@,
                ) && forall|i: int|
                    0 <= i < entries@.len() ==> (#[trigger] entries@[i]).1 < stream@.content.len(),
                Err(e) => object_stream_index(stream@) == Err::<Seq<(u32, usize)>, Error>(e),
            },
    {
        match ObjectStream::index_with_warnings(stream) {
            Ok((entries, _)) => Ok(entries),
            Err(e) => Err(e),
        }
    }

    /// Reads the index of a stream whose content is plain, and returns with
    /// it what was passed over: a declared count that does not fit the
    /// index, and each entry that points outside the content.
    pub fn index_with_warnings(stream: &Stream) -> (res: Result<
        (Vec<(u32, usize)>, Vec<Warning>),
        Error,
    >)
        ensures
            match res {
                Ok((entries, warnings)) => object_stream_index(stream@) == Ok::<
                    Seq<(u32, usize)>,
                    Error,
                >(entries@) && warnings@ == object_stream_warnings(stream@) && forall|i: int|
                    0 <= i < entries@.len() ==> (#[trigger] entries@[i]).1 < stream@.content.len(),
                Err(e) => object_stream_index(stream@) == Err::<Seq<(u32, usize)>, Error>(e),
            },
    {
        if stream.content.len() == 0 {
            return Ok((Vec::new(), Vec::new()));
        }
        let first: i64 = match stream.dict.get("First".as_bytes()) {
            Ok(o) => match o.as_i64() {
                Ok(n) => n,
                Err(e) => {
                    return Err(e);
                },
            },
            Err(e) => {
                return Err(e);
            },
        };
        if first < 0 || first as u64 > usize::MAX as u64 {
            return Err(Error::NumericCast);
        }
        let first_offset: usize = first as usize;
        if first_offset > stream.content.len() {
            return Err(Error::InvalidOffset(first_offset));
        }
        let block = slice_subrange(stream.content.as_slice(), 0, first_offset);
        assert(block@ =~= stream@.content.take(first as int));
        let text = match text_of(block) {
            Some(text) => text,
            None => {
                return Err(Error::InvalidObjectStream);
            },
        };
        proof {
            encode_utf8_decode_utf8(text@);
        }
        let declared: i64 = match stream.dict.get("N".as_bytes()) {
            Ok(o) => match o.as_i64() {
                Ok(n) => n,
                Err(e) => {
                    return Err(e);
                },
            },
            Err(e) => {
                return Err(e);
            },
        };
        let chars = chars_of(text);
        let nums = read_numbers(&chars);
        let entries = entries_from_numbers(&nums, first_offset, stream.content.len());
        let warnings = warnings_from_numbers(&nums, declared, first_offset, stream.content.len());
        Ok((entries, warnings))
    }

    /// The warnings for the objects that were not parsed.
    pub fn unparsed(bindings: &Vec<(u32, Option<Object>)>) -> (res: Vec<Warning>)
        ensures
            res@ == unparsed_objects(bindings@, bindings@.len()),
    {
        let mut out: Vec<Warning> = Vec::new();
        let mut i: usize = 0;
        while i < bindings.len()
            invariant
                i <= bindings.len(),
                out@ == unparsed_objects(bindings@, i as nat),
            decreases bindings.len() - i,
        {
            if bindings[i].1.is_none() {
                out.push(Warning::ObjectNotParsed(bindings[i].0));
            }
            i += 1;
        }
        out
    }

    /// Binds each number whose object was parsed to that object.
    pub fn from_bindings(bindings: Vec<(u32, Option<Object>)>) -> (res: ObjectStream)
        ensures
            res.objects@ == bound_objects(bindings@, bindings@.len()),
    {
        let ghost all = bindings@;
        let mut objects: BTreeMap<ObjectId, Object> = BTreeMap::new();
        for binding in it: bindings
            invariant
                it.seq() == all,
                objects@ == bound_objects(all, it.index() as nat),
        {
            match binding.1 {
                Some(object) => {
                    objects.insert((binding.0, 0u16), object);
                },
                None => {},
            }
        }
        ObjectStream { objects }
    }

    /// Decodes an object stream. The filters are undone with `inflate`, the
    /// codec that the caller supplies; where it fails, the content is taken
    /// as it stands. Each listed object is parsed with `parse_object_at`, the
    /// parser that the caller supplies, and an object that does not parse is
    /// left out.
    pub fn new<D, P>(stream: &mut Stream, inflate: D, parse_object_at: P) -> (res: Result<
        ObjectStream,
        Error,
    >) where D: FnOnce(&Stream) -> Result<Vec<u8>, Error>, P: Fn(&[u8], usize) -> Option<Object>
        requires
            inflate.requires((&*old(stream),)),
            forall|bytes: &[u8], offset: usize|
                offset < bytes@.len() ==> #[trigger] parse_object_at.requires((bytes, offset)),
        ensures
            exists|inflated: Result<Vec<u8>, Error>|
                inflate.ensures((&*old(stream),), inflated) && final(stream)@ == match inflated {
                    Ok(data) => plain_stream(old(stream)@, data@),
                    Err(_) => old(stream)@,
                },
            match object_stream_index(final(stream)@) {
                Err(e) => res matches Err(f) && f == e,
                Ok(entries) => res matches Ok(packed) && exists|
                    bindings: Seq<(u32, Option<Object>)>,
                |
                    parsed_by(parse_object_at, final(stream)@.content, entries, bindings)
                        && packed.objects@ == bound_objects(bindings, bindings.len()),
            },
    {
        match ObjectStream::new_with_warnings(stream, inflate, parse_object_at) {
            Ok((packed, _)) => Ok(packed),
            Err(e) => Err(e),
        }
    }

    /// Decodes an object stream as [`ObjectStream::new`] does, and returns
    /// with the objects what was passed over: the warnings of the index,
    /// and then one for each listed object that did not parse.
    pub fn new_with_warnings<D, P>(stream: &mut Stream, inflate: D, parse_object_at: P) -> (res:
        Result<(ObjectStream, Vec<Warning>), Error>) where
        D: FnOnce(&Stream) -> Result<Vec<u8>, Error>,
        P: Fn(&[u8], usize) -> Option<Object>,

        requires
            inflate.requires((&*old(stream),)),
            forall|bytes: &[u8], offset: usize|
                offset < bytes@.len() ==> #[trigger] parse_object_at.requires((bytes, offset)),
        ensures
            exists|inflated: Result<Vec<u8>, Error>|
                inflate.ensures((&*old(stream),), inflated) && final(stream)@ == match inflated {
                    Ok(data) => plain_stream(old(stream)@, data@),
                    Err(_) => old(stream)@,
                },
            match object_stream_index(final(stream)@) {
                Err(e) => res matches Err(f) && f == e,
                Ok(entries) => res matches Ok((packed, warnings)) && exists|
                    bindings: Seq<(u32, Option<Object>)>,
                |
                    parsed_by(parse_object_at, final(stream)@.content, entries, bindings)
                        && packed.objects@ == bound_objects(bindings, bindings.len()) && warnings@
                        == object_stream_warnings(final(stream)@) + unparsed_objects(
                        bindings,
                        bindings.len(),
                    ),
            },
    {
        match stream.decompress(inflate) {
            Ok(()) => {
                proof {
                    let data = choose|data: Vec<u8>|
                        inflate.ensures((&*old(stream),), Ok(data)) && stream@ == plain_stream(
                            old(stream)@,
                            data@,
                        );
                    assert(inflate.ensures((&*old(stream),), Ok(data)));
                }
            },
            Err(e) => {
                assert(inflate.ensures((&*old(stream),), Err(e)));
            },
        }
        let (entries, mut warnings) = match ObjectStream::index_with_warnings(stream) {
            Ok(read) => read,
            Err(e) => {
                return Err(e);
            },
        };
        let content = stream.content.as_slice();
        let mut bindings: Vec<(u32, Option<Object>)> = Vec::new();
        let mut i: usize = 0;
        while i < entries.len()
            invariant
                i <= entries.len(),
                bindings@.len() == i,
                content@ == stream@.content,
                object_stream_index(stream@) == Ok::<Seq<(u32, usize)>, Error>(entries@),
                warnings@ == object_stream_warnings(stream@),
                forall|bytes: &[u8], offset: usize|
                    offset < bytes@.len() ==> #[trigger] parse_object_at.requires((bytes, offset)),
                forall|k: int|
                    0 <= k < entries@.len() ==> (#[trigger] entries@[k]).1 < stream@.content.len(),
                forall|k: int|
                    0 <= k < i ==> (#[trigger] bindings@[k]).0 == entries@[k].0
                        && parse_object_at.ensures((content, entries@[k].1), bindings@[k].1),
            decreases entries.len() - i,
        {
            let entry = entries[i];
            let parsed = parse_object_at(content, entry.1);
            bindings.push((entry.0, parsed));
            i += 1;
        }
        assert(parsed_by(parse_object_at, stream@.content, entries@, bindings@));
        let ghost bound = bindings@;
        let mut unparsed = ObjectStream::unparsed(&bindings);
        warnings.append(&mut unparsed);
        let packed = ObjectStream::from_bindings(bindings);
        assert(parsed_by(
            parse_object_at,
            stream@.content,
            object_stream_index(stream@)->Ok_0,
            bound,
        ));
        Ok((packed, warnings))
    }
}

/// An object is bound under an id exactly where the id is of generation 0 and
/// some binding of its number holds a parsed object. The result names the
/// binding that gives the object: the last of them.
pub proof fn lemma_bound_objects(bindings: Seq<(u32, Option<Object>)>, k: nat, id: ObjectId) -> (i:
    int)
    requires
        k <= bindings.len(),
    ensures
        bound_objects(bindings, k).contains_key(id) <==> id.1 == 0 && exists|j: int|
            0 <= j < k && (#[trigger] bindings[j]).0 == id.0 && bindings[j].1 is Some,
        bound_objects(bindings, k).contains_key(id) ==> {
            &&& 0 <= i < k
            &&& bindings[i].0 == id.0
            &&& bindings[i].1 == Some(bound_objects(bindings, k)[id])
            &&& forall|j: int|
                i < j < k ==> !((#[trigger] bindings[j]).0 == id.0 && bindings[j].1 is Some)
        },
    decreases k,
{
    if k == 0 {
        0
    } else {
        let i = lemma_bound_objects(bindings, (k - 1) as nat, id);
        let last = bindings[k - 1];
        if last.1 is Some && (last.0, 0u16) == id {
            k - 1
        } else {
            if exists|j: int| 0 <= j < k && (#[trigger] bindings[j]).0 == id.0 && bindings[j].1 is Some {
                let j = choose|j: int|
                    0 <= j < k && (#[trigger] bindings[j]).0 == id.0 && bindings[j].1 is Some;
                if id.1 == 0 {
                    assert(j < k - 1);
                }
            }
            i
        }
    }
}

/// Every entry of an index comes from a complete pair of numbers, and its
/// place lies in the content at or after `first`. The result names the pair.
pub proof fn lemma_entry_was_listed(
    nums: Seq<Option<u32>>,
    pairs: nat,
    first: nat,
    len: nat,
    j: int,
) -> (p: int)
    requires
        0 <= j < crate::index_block::entries_of_pairs(nums, pairs, first, len).len(),
        2 * pairs <= nums.len(),
        len <= usize::MAX,
    ensures
        0 <= p < pairs,
        crate::index_block::index_entry(nums, p, first, len) == Some(
            crate::index_block::entries_of_pairs(nums, pairs, first, len)[j],
        ),
        nums[2 * p] == Some(crate::index_block::entries_of_pairs(nums, pairs, first, len)[j].0),
        nums[2 * p + 1] is Some,
        crate::index_block::entries_of_pairs(nums, pairs, first, len)[j].1 == first + nums[2 * p
            + 1]->Some_0,
        first <= crate::index_block::entries_of_pairs(nums, pairs, first, len)[j].1 < len,
    decreases pairs,
{
    let before = crate::index_block::entries_of_pairs(nums, (pairs - 1) as nat, first, len);
    if j < before.len() {
        lemma_entry_was_listed(nums, (pairs - 1) as nat, first, len, j)
    } else {
        pairs - 1
    }
}

/// A last number without a partner changes nothing: the entries are those of
/// the complete pairs before it.
pub proof fn lemma_unpaired_number_is_dropped(
    nums: Seq<Option<u32>>,
    extra: Option<u32>,
    pairs: nat,
    first: nat,
    len: nat,
)
    requires
        nums.len() % 2 == 0,
        pairs <= nums.len() / 2,
    ensures
        nums.push(extra).len() / 2 == nums.len() / 2,
        crate::index_block::entries_of_pairs(nums.push(extra), pairs, first, len)
            == crate::index_block::entries_of_pairs(nums, pairs, first, len),
    decreases pairs,
{
    if pairs > 0 {
        lemma_unpaired_number_is_dropped(nums, extra, (pairs - 1) as nat, first, len);
        assert(nums.push(extra)[2 * (pairs - 1)] == nums[2 * (pairs - 1)]);
        assert(nums.push(extra)[2 * (pairs - 1) + 1] == nums[2 * (pairs - 1) + 1]);
    }
}

/// Whether no two bindings carry the same object number.
pub open spec fn distinct_numbers(bindings: Seq<(u32, Option<Object>)>) -> bool {
    forall|i: int, j: int|
        0 <= i < j < bindings.len() ==> (#[trigger] bindings[i]).0 != (#[trigger] bindings[j]).0
}

/// The order in which the objects were parsed does not matter: bindings with
/// distinct object numbers give the same objects in any order.
pub proof fn lemma_binding_order(
    a: Seq<(u32, Option<Object>)>,
    b: Seq<(u32, Option<Object>)>,
)
    requires
        a.to_multiset() == b.to_multiset(),
        distinct_numbers(a),
    ensures
        bound_objects(a, a.len()) == bound_objects(b, b.len()),
{
    broadcast use vstd::seq_lib::to_multiset_contains;

    let ma = bound_objects(a, a.len());
    let mb = bound_objects(b, b.len());
    assert forall|id: ObjectId| #[trigger]
        ma.contains_key(id) == mb.contains_key(id) && (ma.contains_key(id) ==> ma[id]
            == mb[id]) by {
        let i = lemma_bound_objects(a, a.len(), id);
        let j = lemma_bound_objects(b, b.len(), id);
        if ma.contains_key(id) {
            assert(a.contains(a[i]));
            assert(b.to_multiset().count(a[i]) > 0);
            assert(b.contains(a[i]));
            let j2 = choose|j2: int| 0 <= j2 < b.len() && b[j2] == a[i];
            assert(b[j2].0 == id.0 && b[j2].1 is Some);
            assert(mb.contains_key(id));
        }
        if mb.contains_key(id) {
            assert(b.contains(b[j]));
            assert(a.to_multiset().count(b[j]) > 0);
            assert(a.contains(b[j]));
            let i2 = choose|i2: int| 0 <= i2 < a.len() && a[i2] == b[j];
            assert(a[i2].0 == id.0 && a[i2].1 is Some);
            assert(ma.contains_key(id));
            if i2 != i {
                assert(a[i2].0 == a[i].0);
            }
        }
    }
    assert(ma =~= mb);
}

} // verus!
