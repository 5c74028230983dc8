//! Decoding a cross-reference stream: a dictionary that describes a grid of
//! fixed-width binary rows, one row for each object number it declares.

use vstd::prelude::*;
use vstd::string::*;
use vstd::arithmetic::div_mod::lemma_mod_multiples_vanish;
use vstd::arithmetic::mul::{lemma_mul_inequality, lemma_mul_is_distributive_add_other_way};
use crate::diagnostics::Warning;
use crate::dictionary::{dict_get, dict_has, dict_without};
use crate::error::{Error, ParseError};
use crate::object::{Dictionary, Object, ObjectView, Stream, StreamView};
use crate::stream::plain_stream;
use crate::xref::{Xref, XrefEntry, XrefType, XrefView};

verus! {

/// The unsigned big-endian number that `bytes` spell, kept to its low 64 bits.
pub open spec fn field_value(bytes: Seq<u8>) -> u64
    decreases bytes.len(),
{
    if bytes.len() == 0 {
        0
    } else {
        ((field_value(bytes.drop_last()) * 256 + bytes.last()) % 0x1_0000_0000_0000_0000) as u64
    }
}

/// The byte widths of the three fields of a row.
pub struct FieldWidths {
    pub first: nat,
    pub second: nat,
    pub third: nat,
}

impl FieldWidths {
    /// The number of bytes in one row.
    pub open spec fn row_len(self) -> nat {
        self.first + self.second + self.third
    }
}

/// The field of `width` bytes that starts `start` bytes into `content`. A
/// field without width is 0.
pub open spec fn row_field(content: Seq<u8>, start: nat, width: nat) -> u64 {
    if width == 0 {
        0
    } else {
        field_value(content.subrange(start as int, (start + width) as int))
    }
}

/// The type of row `k`: its first field, or 1 where that field has no width.
pub open spec fn row_kind(content: Seq<u8>, w: FieldWidths, k: nat) -> u64 {
    if w.first == 0 {
        1
    } else {
        row_field(content, k * w.row_len(), w.first)
    }
}

/// The second field of row `k`.
pub open spec fn row_second(content: Seq<u8>, w: FieldWidths, k: nat) -> u64 {
    row_field(content, k * w.row_len() + w.first, w.second)
}

/// The third field of row `k`: 0 where that field has no width.
pub open spec fn row_third(content: Seq<u8>, w: FieldWidths, k: nat) -> u64 {
    row_field(content, k * w.row_len() + w.first + w.second, w.third)
}

/// The entry that row `k` gives: one for a row of type 1 or 2, none for a free
/// row or a row of any other type.
pub open spec fn row_entry(content: Seq<u8>, w: FieldWidths, k: nat) -> Option<XrefEntry> {
    let kind = row_kind(content, w, k);
    if kind == 1 {
        Some(
            XrefEntry::Normal {
                offset: row_second(content, w, k),
                generation: row_third(content, w, k) as u16,
            },
        )
    } else if kind == 2 {
        Some(
            XrefEntry::Compressed {
                container: row_second(content, w, k) as u32,
                index: row_third(content, w, k) as u16,
            },
        )
    } else {
        None
    }
}

/// The number of rows that pair `i` of the index declares.
pub open spec fn pair_count(index: Seq<i64>, i: int) -> nat {
    if index[2 * i + 1] > 0 {
        index[2 * i + 1] as nat
    } else {
        0
    }
}

/// The number of rows that the pairs before pair `i` declare.
pub open spec fn rows_before(index: Seq<i64>, i: nat) -> nat
    decreases i,
{
    if i == 0 {
        0
    } else {
        rows_before(index, (i - 1) as nat) + pair_count(index, i - 1)
    }
}

/// The number of rows that the index declares. A trailing number without a
/// partner declares nothing.
pub open spec fn total_rows(index: Seq<i64>) -> nat {
    rows_before(index, index.len() / 2)
}

/// An object number: `n` kept to its low 32 bits.
pub open spec fn wrap32(n: int) -> u32 {
    (n % 0x1_0000_0000) as u32
}

/// The object number of row `k`, as the first `n` pairs of the index give it:
/// the start of the pair that the row falls in, plus the row's place in it.
pub open spec fn row_number(index: Seq<i64>, n: nat, k: nat) -> u32
    decreases n,
{
    if n == 0 {
        0
    } else if k >= rows_before(index, (n - 1) as nat) {
        wrap32(index[2 * (n - 1)] + (k - rows_before(index, (n - 1) as nat)))
    } else {
        row_number(index, (n - 1) as nat, k)
    }
}

/// The entries that the first `k` rows give, a later row replacing an
/// earlier one with the same object number.
pub open spec fn entries_after(content: Seq<u8>, w: FieldWidths, index: Seq<i64>, k: nat) -> Map<
    u32,
    XrefEntry,
>
    decreases k,
{
    if k == 0 {
        Map::empty()
    } else {
        let before = entries_after(content, w, index, (k - 1) as nat);
        match row_entry(content, w, (k - 1) as nat) {
            Some(entry) => before.insert(row_number(index, index.len() / 2, (k - 1) as nat), entry),
            None => before,
        }
    }
}

/// The integers of an array that holds nothing but integers.
pub open spec fn integer_array(o: ObjectView) -> Option<Seq<i64>> {
    match o {
        ObjectView::Array(items) => if forall|i: int| 0 <= i < items.len() ==> items[i] is Integer {
            Some(Seq::new(items.len(), |i: int| items[i]->Integer_0))
        } else {
            None
        },
        _ => None,
    }
}

/// The integer under `Size`.
pub open spec fn declared_size(d: Seq<(Seq<u8>, ObjectView)>) -> Option<i64> {
    match dict_get(d, "Size".spec_bytes()) {
        Some(ObjectView::Integer(n)) => Some(n),
        _ => None,
    }
}

/// The pairs of start and count under `Index`; the one pair `[0, size]` where
/// there is no array of integers under that key.
pub open spec fn declared_index(d: Seq<(Seq<u8>, ObjectView)>, size: i64) -> Seq<i64> {
    match dict_get(d, "Index".spec_bytes()) {
        Some(o) => match integer_array(o) {
            Some(a) => a,
            None => seq![0i64, size],
        },
        None => seq![0i64, size],
    }
}

/// The field widths under `W`: the first three of an array of integers, none
/// of them negative.
pub open spec fn declared_widths(d: Seq<(Seq<u8>, ObjectView)>) -> Option<FieldWidths> {
    match dict_get(d, "W".spec_bytes()) {
        Some(o) => match integer_array(o) {
            Some(a) => if a.len() >= 3 && a[0] >= 0 && a[1] >= 0 && a[2] >= 0 {
                Some(FieldWidths { first: a[0] as nat, second: a[1] as nat, third: a[2] as nat })
            } else {
                None
            },
            None => None,
        },
        None => None,
    }
}

/// The dictionary as a trailer: without the keys that describe the rows.
pub open spec fn trailer_of(d: Seq<(Seq<u8>, ObjectView)>) -> Seq<(Seq<u8>, ObjectView)> {
    dict_without(
        dict_without(dict_without(d, "Length".spec_bytes()), "W".spec_bytes()),
        "Index".spec_bytes(),
    )
}

/// What a cross-reference stream whose content is plain decodes to.
pub open spec fn decoded_xref(s: StreamView) -> Result<
    (XrefView, Seq<(Seq<u8>, ObjectView)>),
    Error,
> {
    match declared_size(s.dict) {
        None => Err(Error::Parse(ParseError::InvalidXref)),
        Some(size) => match declared_widths(s.dict) {
            None => Err(Error::Parse(ParseError::InvalidXref)),
            Some(w) => {
                let index = declared_index(s.dict, size);
                if total_rows(index) * w.row_len() > s.content.len() {
                    Err(Error::UnexpectedEof)
                } else {
                    Ok(
                        (
                            XrefView {
                                cross_reference_type: XrefType::CrossReferenceStream,
                                entries: entries_after(s.content, w, index, total_rows(index)),
                                size: size as u32,
                            },
                            trailer_of(s.dict),
                        ),
                    )
                }
            },
        },
    }
}

/// Whether `res` is the outcome `expected`, values taken by their views.
pub open spec fn is_decoded(
    res: Result<(Xref, Dictionary), Error>,
    expected: Result<(XrefView, Seq<(Seq<u8>, ObjectView)>), Error>,
) -> bool {
    match res {
        Ok((xref, dict)) => expected == Ok::<(XrefView, Seq<(Seq<u8>, ObjectView)>), Error>(
            (xref@, dict@),
        ),
        Err(e) => expected == Err::<(XrefView, Seq<(Seq<u8>, ObjectView)>), Error>(e),
    }
}

/// Reads a field of `width` bytes at `position` and moves `position` past
/// it. Where fewer than `width` bytes are left, nothing is read.
pub fn read_big_endian_integer(content: &[u8], position: &mut usize, width: u64) -> (res: Result<
    u64,
    Error,
>)
    ensures
        match res {
            Ok(v) => *old(position) + width <= content@.len() && *final(position) == *old(position)
                + width && v == row_field(content@, *old(position) as nat, width as nat),
            Err(e) => e == Error::UnexpectedEof && *old(position) + width > content@.len()
                && *final(position) == *old(position),
        },
{
    let start: usize = *position;
    if start > content.len() {
        return Err(Error::UnexpectedEof);
    }
    let left: usize = content.len() - start;
    if width > left as u64 {
        return Err(Error::UnexpectedEof);
    }
    let end: usize = start + width as usize;
    let mut value: u64 = 0;
    let mut i: usize = start;
    while i < end
        invariant
            start <= i <= end <= content@.len(),
            value == field_value(content@.subrange(start as int, i as int)),
        decreases end - i,
    {
        let byte: u64 = content[i] as u64;
        proof {
            let next = content@.subrange(start as int, i + 1);
            assert(next.drop_last() =~= content@.subrange(start as int, i as int));
            assert(next.last() == content@[i as int]);
        }
        value = value.wrapping_mul(256).wrapping_add(byte);
        proof {
            let m = 0x1_0000_0000_0000_0000int;
            let prev = field_value(content@.subrange(start as int, i as int)) as int;
            vstd::arithmetic::div_mod::lemma_add_mod_noop(prev * 256, byte as int, m);
        }
        i += 1;
    }
    *position = end;
    Ok(value)
}

/// The integers of an array that holds nothing but integers.
pub fn parse_integer_array(array: &Object) -> (res: Result<Vec<i64>, Error>)
    ensures
        match res {
            Ok(v) => integer_array(array@) == Some(v@),
            Err(e) => e == Error::ObjectType && integer_array(array@) is None,
        },
{
    let items = match array.as_array() {
        Ok(items) => items,
        Err(e) => {
            return Err(e);
        },
    };
    let mut out: Vec<i64> = Vec::with_capacity(items.len());
    let mut i: usize = 0;
    while i < items.len()
        invariant
            i <= items.len(),
            out@.len() == i,
            array@ == ObjectView::Array(crate::object::object_views(items@)),
            forall|k: int| 0 <= k < i ==> items@[k]@ == ObjectView::Integer(#[trigger] out@[k]),
        decreases items.len() - i,
    {
        match items[i].as_i64() {
            Ok(n) => {
                out.push(n);
            },
            Err(e) => {
                assert(!(array@->Array_0[i as int] is Integer));
                return Err(e);
            },
        }
        i += 1;
    }
    proof {
        let views = array@->Array_0;
        assert forall|k: int| 0 <= k < views.len() implies views[k] is Integer by {
            assert(items@[k]@ == ObjectView::Integer(out@[k]));
        }
        assert(integer_array(array@)->Some_0 =~= out@) by {
            assert forall|k: int| 0 <= k < views.len() implies views[k]->Integer_0 == out@[k] by {
                assert(items@[k]@ == ObjectView::Integer(out@[k]));
            }
        }
    }
    Ok(out)
}

/// Later pairs start at later rows.
pub proof fn lemma_rows_before_monotone(index: Seq<i64>, i: nat, n: nat)
    requires
        i <= n,
    ensures
        rows_before(index, i) <= rows_before(index, n),
    decreases n,
{
    if i < n {
        lemma_rows_before_monotone(index, i, (n - 1) as nat);
    }
}

/// Row `j` of pair `i` carries the pair's start plus `j` as its object number.
pub proof fn lemma_row_number(index: Seq<i64>, n: nat, i: nat, j: nat)
    requires
        i < n,
        j < pair_count(index, i as int),
    ensures
        row_number(index, n, rows_before(index, i) + j) == wrap32(index[2 * (i as int)] + j),
    decreases n,
{
    if i < n - 1 {
        lemma_rows_before_monotone(index, i + 1, (n - 1) as nat);
        lemma_row_number(index, (n - 1) as nat, i, j);
    }
}

/// The object number of a row that stands `j` rows after `start`.
fn object_number(start: i64, j: i64) -> (res: u32)
    requires
        0 <= j,
    ensures
        res == wrap32(start + j),
{
    let shifted: u128 = (start as i128 + j as i128 + 0x8000_0000_0000_0000) as u128;
    proof {
        lemma_mod_multiples_vanish(0x8000_0000, start + j, 0x1_0000_0000);
    }
    (shifted % 0x1_0000_0000) as u32
}

/// The warnings for the first `k` rows: one for each row of a type other
/// than 0, 1 and 2, with the object number of the row, in order.
pub open spec fn row_warnings(content: Seq<u8>, w: FieldWidths, index: Seq<i64>, k: nat) -> Seq<
    Warning,
>
    decreases k,
{
    if k == 0 {
        Seq::empty()
    } else {
        let before = row_warnings(content, w, index, (k - 1) as nat);
        if row_kind(content, w, (k - 1) as nat) > 2 {
            before.push(
                Warning::UnknownRowType(row_number(index, index.len() / 2, (k - 1) as nat)),
            )
        } else {
            before
        }
    }
}

/// The warnings of a cross-reference stream whose content is plain: those
/// of all the rows that its index declares.
pub open spec fn xref_warnings(s: StreamView) -> Seq<Warning> {
    match (declared_size(s.dict), declared_widths(s.dict)) {
        (Some(size), Some(w)) => {
            let index = declared_index(s.dict, size);
            row_warnings(s.content, w, index, total_rows(index))
        },
        _ => Seq::empty(),
    }
}

/// Decodes a cross-reference stream whose content is plain: reads the rows
/// that `Index` declares, in the widths that `W` gives, and returns the
/// entries with the dictionary as a trailer.
pub fn decode_xref_rows(stream: Stream) -> (res: Result<(Xref, Dictionary), Error>)
    ensures
        is_decoded(res, decoded_xref(stream@)),
{
    match decode_xref_rows_with_warnings(stream) {
        Ok((xref, dict, _)) => Ok((xref, dict)),
        Err(e) => Err(e),
    }
}

/// Decodes a cross-reference stream whose content is plain as
/// [`decode_xref_rows`] does, and returns with the entries and the trailer
/// what was passed over: each row of an unknown type.
pub fn decode_xref_rows_with_warnings(stream: Stream) -> (res: Result<
    (Xref, Dictionary, Vec<Warning>),
    Error,
>)
    ensures
        match res {
            Ok((xref, dict, warnings)) => decoded_xref(stream@) == Ok::<
                (XrefView, Seq<(Seq<u8>, ObjectView)>),
                Error,
            >((xref@, dict@)) && warnings@ == xref_warnings(stream@),
            Err(e) => decoded_xref(stream@) == Err::<(XrefView, Seq<(Seq<u8>, ObjectView)>), Error>(
                e,
            ),
        },
{
    let ghost view = stream@;
    let mut dict = stream.dict;
    let content = stream.content;
    let size: i64 = match dict.get("Size".as_bytes()) {
        Ok(o) => match o.as_i64() {
            Ok(n) => n,
            Err(_) => {
                return Err(Error::Parse(ParseError::InvalidXref));
            },
        },
        Err(_) => {
            return Err(Error::Parse(ParseError::InvalidXref));
        },
    };
    let index: Vec<i64> = match dict.get("Index".as_bytes()) {
        Ok(o) => match parse_integer_array(o) {
            Ok(a) => a,
            Err(_) => vec![0i64, size],
        },
        Err(_) => vec![0i64, size],
    };
    assert(index@ =~= declared_index(view.dict, size));
    let widths: Vec<i64> = match dict.get("W".as_bytes()) {
        Ok(o) => match parse_integer_array(o) {
            Ok(a) => a,
            Err(_) => {
                return Err(Error::Parse(ParseError::InvalidXref));
            },
        },
        Err(_) => {
            return Err(Error::Parse(ParseError::InvalidXref));
        },
    };
    if widths.len() < 3 || widths[0] < 0 || widths[1] < 0 || widths[2] < 0 {
        return Err(Error::Parse(ParseError::InvalidXref));
    }
    let w1: u64 = widths[0] as u64;
    let w2: u64 = widths[1] as u64;
    let w3: u64 = widths[2] as u64;
    let ghost w = FieldWidths { first: w1 as nat, second: w2 as nat, third: w3 as nat };
    assert(declared_widths(view.dict) == Some(w));
    let mut xref = Xref::new(#[verifier::truncate] (size as u32), XrefType::CrossReferenceStream);
    let pairs: usize = index.len() / 2;
    let mut warnings: Vec<Warning> = Vec::new();
    let mut position: usize = 0;
    let ghost mut k: nat = 0;
    let mut i: usize = 0;
    while i < pairs
        invariant
            pairs == index@.len() / 2,
            i <= pairs,
            view == stream@,
            declared_size(view.dict) == Some(size),
            declared_widths(view.dict) == Some(w),
            index@ == declared_index(view.dict, size),
            content@ == view.content,
            w == (FieldWidths { first: w1 as nat, second: w2 as nat, third: w3 as nat }),
            k == rows_before(index@, i as nat),
            position == k * w.row_len(),
            position <= content@.len(),
            warnings@ == row_warnings(content@, w, index@, k),
            xref@ == (XrefView {
                cross_reference_type: XrefType::CrossReferenceStream,
                entries: entries_after(content@, w, index@, k),
                size: #[verifier::truncate] (size as u32),
            }),
        decreases pairs - i,
    {
        let start: i64 = index[2 * i];
        let count: i64 = index[2 * i + 1];
        let mut j: i64 = 0;
        while j < count
            invariant
                pairs == index@.len() / 2,
                i < pairs,
                start == index@[2 * i],
                count == index@[2 * i + 1],
                0 <= j,
                j <= pair_count(index@, i as int),
                view == stream@,
                declared_size(view.dict) == Some(size),
                declared_widths(view.dict) == Some(w),
                index@ == declared_index(view.dict, size),
                content@ == view.content,
                w == (FieldWidths { first: w1 as nat, second: w2 as nat, third: w3 as nat }),
                k == rows_before(index@, i as nat) + j,
                position == k * w.row_len(),
                position <= content@.len(),
                warnings@ == row_warnings(content@, w, index@, k),
                xref@ == (XrefView {
                    cross_reference_type: XrefType::CrossReferenceStream,
                    entries: entries_after(content@, w, index@, k),
                    size: #[verifier::truncate] (size as u32),
                }),
            decreases count - j,
        {
            proof {
                lemma_rows_before_monotone(index@, (i + 1) as nat, pairs as nat);
                assert(k + 1 <= total_rows(index@));
                lemma_mul_inequality((k + 1) as int, total_rows(index@) as int, w.row_len() as int);
                lemma_mul_is_distributive_add_other_way(w.row_len() as int, k as int, 1);
                assert((k + 1) * w.row_len() == k * w.row_len() + w.row_len());
                assert((k + 1) * w.row_len() <= total_rows(index@) * w.row_len());
                lemma_row_number(index@, pairs as nat, i as nat, j as nat);
            }
            let kind: u64 = if w1 > 0 {
                match read_big_endian_integer(content.as_slice(), &mut position, w1) {
                    Ok(v) => v,
                    Err(e) => {
                        return Err(e);
                    },
                }
            } else {
                1
            };
            let second: u64 = match read_big_endian_integer(content.as_slice(), &mut position, w2) {
                Ok(v) => v,
                Err(e) => {
                    return Err(e);
                },
            };
            let third: u64 = match read_big_endian_integer(content.as_slice(), &mut position, w3) {
                Ok(v) => v,
                Err(e) => {
                    return Err(e);
                },
            };
            assert(kind == row_kind(content@, w, k));
            assert(second == row_second(content@, w, k));
            assert(third == row_third(content@, w, k));
            let number: u32 = object_number(start, j);
            if kind == 1 {
                xref.insert(
                    number,
                    XrefEntry::Normal {
                        offset: second,
                        generation: #[verifier::truncate] (third as u16),
                    },
                );
            } else if kind == 2 {
                xref.insert(
                    number,
                    XrefEntry::Compressed {
                        container: #[verifier::truncate] (second as u32),
                        index: #[verifier::truncate] (third as u16),
                    },
                );
            } else if kind > 2 {
                warnings.push(Warning::UnknownRowType(number));
            }
            j += 1;
            proof {
                k = k + 1;
            }
        }
        i += 1;
    }
    dict.remove("Length".as_bytes());
    dict.remove("W".as_bytes());
    dict.remove("Index".as_bytes());
    Ok((xref, dict, warnings))
}

/// Decodes a cross-reference stream. Where the dictionary names a filter,
/// the content is first made plain with `inflate`, the codec that the caller
/// supplies, and an error of the codec is returned as it is.
pub fn decode_xref_stream<F>(stream: Stream, inflate: F) -> (res: Result<
    (Xref, Dictionary),
    Error,
>) where F: FnOnce(&Stream) -> Result<Vec<u8>, Error>
    requires
        dict_has(stream@.dict, "Filter".spec_bytes()) ==> inflate.requires((&stream,)),
    ensures
        !dict_has(stream@.dict, "Filter".spec_bytes()) ==> is_decoded(res, decoded_xref(stream@)),
        dict_has(stream@.dict, "Filter".spec_bytes()) ==> exists|out: Result<Vec<u8>, Error>|
            inflate.ensures((&stream,), out) && match out {
                Ok(data) => is_decoded(res, decoded_xref(plain_stream(stream@, data@))),
                Err(e) => res matches Err(f) && f == e,
            },
{
    match decode_xref_stream_with_warnings(stream, inflate) {
        Ok((xref, dict, _)) => Ok((xref, dict)),
        Err(e) => Err(e),
    }
}

/// Whether `res` is the outcome of decoding the plain stream `plain` with
/// its warnings, values taken by their views.
pub open spec fn is_decoded_with_warnings(
    res: Result<(Xref, Dictionary, Vec<Warning>), Error>,
    plain: StreamView,
) -> bool {
    match res {
        Ok((xref, dict, warnings)) => decoded_xref(plain) == Ok::<
            (XrefView, Seq<(Seq<u8>, ObjectView)>),
            Error,
        >((xref@, dict@)) && warnings@ == xref_warnings(plain),
        Err(e) => decoded_xref(plain) == Err::<(XrefView, Seq<(Seq<u8>, ObjectView)>), Error>(e),
    }
}

/// Decodes a cross-reference stream as [`decode_xref_stream`] does, and
/// returns with the entries and the trailer what was passed over: each row
/// of an unknown type.
pub fn decode_xref_stream_with_warnings<F>(stream: Stream, inflate: F) -> (res: Result<
    (Xref, Dictionary, Vec<Warning>),
    Error,
>) where F: FnOnce(&Stream) -> Result<Vec<u8>, Error>
    requires
        dict_has(stream@.dict, "Filter".spec_bytes()) ==> inflate.requires((&stream,)),
    ensures
        !dict_has(stream@.dict, "Filter".spec_bytes()) ==> is_decoded_with_warnings(res, stream@),
        dict_has(stream@.dict, "Filter".spec_bytes()) ==> exists|out: Result<Vec<u8>, Error>|
            inflate.ensures((&stream,), out) && match out {
                Ok(data) => is_decoded_with_warnings(res, plain_stream(stream@, data@)),
                Err(e) => res matches Err(f) && f == e,
            },
{
    let mut plain = stream;
    if plain.is_compressed() {
        match plain.decompress(inflate) {
            Ok(()) => {},
            Err(e) => {
                assert(inflate.ensures((&stream,), Err(e)));
                return Err(e);
            },
        }
        let res = decode_xref_rows_with_warnings(plain);
        proof {
            let data = choose|data: Vec<u8>|
                inflate.ensures((&stream,), Ok(data)) && plain@ == plain_stream(stream@, data@);
            assert(inflate.ensures((&stream,), Ok(data)));
        }
        res
    } else {
        decode_xref_rows_with_warnings(plain)
    }
}

} // verus!
