use lopdf::xref_stream::{
    decode_xref_rows, decode_xref_rows_with_warnings, decode_xref_stream_with_warnings,
    parse_integer_array, read_big_endian_integer,
};
use lopdf::{
    decode_xref_stream, Dictionary, Error, Object, ParseError, Stream, Warning, Xref, XrefEntry,
    XrefType,
};

fn integers(values: &[i64]) -> Object {
    Object::Array(values.iter().map(|v| Object::Integer(*v)).collect())
}

fn xref_stream(size: i64, index: Option<&[i64]>, widths: &[i64], content: Vec<u8>) -> Stream {
    let mut dict = Dictionary::new();
    dict.set(b"Type".to_vec(), Object::name("XRef"));
    dict.set(b"Size".to_vec(), Object::Integer(size));
    if let Some(index) = index {
        dict.set(b"Index".to_vec(), integers(index));
    }
    dict.set(b"W".to_vec(), integers(widths));
    dict.set(b"Root".to_vec(), Object::Reference((1, 0)));
    Stream::new(dict, content)
}

fn no_codec(_stream: &Stream) -> Result<Vec<u8>, Error> {
    panic!("the stream names no filter")
}

fn big_endian(value: u64, width: usize) -> Vec<u8> {
    (0..width).map(|i| (value >> (8 * (width - 1 - i))) as u8).collect()
}

fn encode_rows(widths: [usize; 3], rows: &[XrefEntry]) -> Vec<u8> {
    let mut out = Vec::new();
    for row in rows {
        let (kind, second, third) = match row {
            XrefEntry::Free => (0u64, 0u64, 0u64),
            XrefEntry::Normal { offset, generation } => (1, *offset, *generation as u64),
            XrefEntry::Compressed { container, index } => (2, *container as u64, *index as u64),
        };
        out.extend(big_endian(kind, widths[0]));
        out.extend(big_endian(second, widths[1]));
        out.extend(big_endian(third, widths[2]));
    }
    out
}

fn entries(xref: &Xref) -> Vec<(u32, XrefEntry)> {
    xref.entries.iter().map(|(k, v)| (*k, *v)).collect()
}

#[test]
fn rows_of_each_type_are_decoded() {
    let content = vec![
        0, 0, 0, 0xff, // free
        1, 0x01, 0x02, 0, // normal at 0x0102
        2, 0x00, 0x07, 3, // compressed in 7, index 3
        9, 0x11, 0x11, 1, // unknown type
        1, 0xff, 0xff, 2, // normal at 0xffff, generation 2
    ];
    let stream = xref_stream(5, None, &[1, 2, 1], content);
    let (xref, trailer) = decode_xref_stream(stream, no_codec).unwrap();
    assert_eq!(xref.size, 5);
    assert_eq!(xref.cross_reference_type, XrefType::CrossReferenceStream);
    assert_eq!(
        entries(&xref),
        vec![
            (1, XrefEntry::Normal { offset: 0x0102, generation: 0 }),
            (2, XrefEntry::Compressed { container: 7, index: 3 }),
            (4, XrefEntry::Normal { offset: 0xffff, generation: 2 }),
        ]
    );
    assert_eq!(xref.get(2), Some(XrefEntry::Compressed { container: 7, index: 3 }));
    assert_eq!(xref.get(0), None);
    assert_eq!(xref.len(), 3);
    assert!(!trailer.has(b"Length"));
    assert!(!trailer.has(b"W"));
    assert!(!trailer.has(b"Index"));
    assert_eq!(trailer.get(b"Size"), Ok(&Object::Integer(5)));
    assert_eq!(trailer.get(b"Root"), Ok(&Object::Reference((1, 0))));
    assert_eq!(trailer.get(b"Type"), Ok(&Object::name("XRef")));
    assert_eq!(trailer.len(), 3);
}

#[test]
fn index_pairs_give_the_object_numbers() {
    let content = vec![1, 10, 1, 11, 1, 12, 1, 13, 1, 14];
    let stream = xref_stream(200, Some(&[3, 2, 100, 3, 7]), &[1, 1, 0], content);
    let (xref, trailer) = decode_xref_rows(stream).unwrap();
    assert_eq!(
        entries(&xref),
        vec![
            (3, XrefEntry::Normal { offset: 10, generation: 0 }),
            (4, XrefEntry::Normal { offset: 11, generation: 0 }),
            (100, XrefEntry::Normal { offset: 12, generation: 0 }),
            (101, XrefEntry::Normal { offset: 13, generation: 0 }),
            (102, XrefEntry::Normal { offset: 14, generation: 0 }),
        ]
    );
    assert!(!trailer.has(b"Index"));
}

#[test]
fn later_rows_shadow_earlier_ones() {
    let content = vec![1, 10, 1, 11, 2, 12];
    let stream = xref_stream(9, Some(&[5, 2, 5, 1, -4, -4]), &[1, 1, 0], content);
    let (xref, _) = decode_xref_rows(stream).unwrap();
    assert_eq!(
        entries(&xref),
        vec![
            (5, XrefEntry::Compressed { container: 12, index: 0 }),
            (6, XrefEntry::Normal { offset: 11, generation: 0 }),
        ]
    );
}

#[test]
fn widths_without_type_and_generation_default() {
    let content = vec![0, 0, 0, 9, 0, 1, 0, 0, 0xff, 0xff, 0xff, 0xff];
    let stream = xref_stream(3, None, &[0, 4, 0], content);
    let (xref, _) = decode_xref_stream(stream, no_codec).unwrap();
    assert_eq!(
        entries(&xref),
        vec![
            (0, XrefEntry::Normal { offset: 9, generation: 0 }),
            (1, XrefEntry::Normal { offset: 0x10000, generation: 0 }),
            (2, XrefEntry::Normal { offset: 0xffff_ffff, generation: 0 }),
        ]
    );
}

#[test]
fn wide_fields_are_cast() {
    let mut content = vec![1];
    content.extend([0x01, 0x02, 0x03, 0x04, 0x05, 0x06, 0x07, 0x08]);
    content.extend([0x0a, 0x0b, 0x0c]);
    content.push(2);
    content.extend([0, 0, 0, 0x01, 0x00, 0x00, 0x00, 0x09]);
    content.extend([0x01, 0x00, 0x05]);
    let stream = xref_stream(2, None, &[1, 8, 3], content);
    let (xref, _) = decode_xref_rows(stream).unwrap();
    assert_eq!(
        entries(&xref),
        vec![
            (0, XrefEntry::Normal { offset: 0x0102_0304_0506_0708, generation: 0x0b0c }),
            (1, XrefEntry::Compressed { container: 9, index: 5 }),
        ]
    );
}

#[test]
fn hand_built_rows_round_trip() {
    let rows = vec![
        XrefEntry::Free,
        XrefEntry::Normal { offset: 0, generation: 0 },
        XrefEntry::Normal { offset: 0x00ff_ffff, generation: 0xffff },
        XrefEntry::Compressed { container: 70_000, index: 12 },
        XrefEntry::Free,
        XrefEntry::Compressed { container: 0, index: 0xffff },
    ];
    let content = encode_rows([1, 3, 2], &rows);
    let stream = xref_stream(1000, Some(&[40, rows.len() as i64]), &[1, 3, 2], content);
    let (xref, _) = decode_xref_stream(stream, no_codec).unwrap();
    let expected: Vec<(u32, XrefEntry)> = rows
        .iter()
        .enumerate()
        .filter(|(_, row)| **row != XrefEntry::Free)
        .map(|(i, row)| (40 + i as u32, *row))
        .collect();
    assert_eq!(entries(&xref), expected);
}

#[test]
fn truncated_rows_are_an_error() {
    let stream = xref_stream(2, None, &[1, 2, 1], vec![1, 0, 0, 0, 1, 0, 0]);
    assert_eq!(decode_xref_rows(stream).unwrap_err(), Error::UnexpectedEof);
    let stream = xref_stream(1, None, &[1, 2, 1], vec![9, 0]);
    assert_eq!(decode_xref_rows(stream).unwrap_err(), Error::UnexpectedEof);
    let stream = xref_stream(1, None, &[1, 2, 1], vec![1, 0, 0, 0, 77, 77]);
    assert!(decode_xref_rows(stream).is_ok());
    let stream = xref_stream(0, None, &[1, 2, 1], vec![]);
    assert!(decode_xref_rows(stream).is_ok());
}

#[test]
fn a_dictionary_without_a_grid_is_invalid() {
    let invalid = Error::Parse(ParseError::InvalidXref);
    let mut dict = Dictionary::new();
    dict.set(b"W".to_vec(), integers(&[1, 1, 1]));
    assert_eq!(decode_xref_rows(Stream::new(dict, vec![])).unwrap_err(), invalid);

    let mut dict = Dictionary::new();
    dict.set(b"Size".to_vec(), Object::name("3"));
    dict.set(b"W".to_vec(), integers(&[1, 1, 1]));
    assert_eq!(decode_xref_rows(Stream::new(dict, vec![])).unwrap_err(), invalid);

    let mut dict = Dictionary::new();
    dict.set(b"Size".to_vec(), Object::Integer(0));
    assert_eq!(decode_xref_rows(Stream::new(dict, vec![])).unwrap_err(), invalid);

    for widths in [vec![1, 1], vec![-1, 1, 1], vec![1, -1, 1], vec![1, 1, -1]] {
        let stream = xref_stream(0, None, &widths, vec![]);
        assert_eq!(decode_xref_rows(stream).unwrap_err(), invalid);
    }

    let mut dict = Dictionary::new();
    dict.set(b"Size".to_vec(), Object::Integer(0));
    dict.set(b"W".to_vec(), Object::Array(vec![Object::Integer(1), Object::Null, Object::Null]));
    assert_eq!(decode_xref_rows(Stream::new(dict, vec![])).unwrap_err(), invalid);
}

#[test]
fn an_index_that_is_no_integer_array_counts_as_absent() {
    let mut stream = xref_stream(2, None, &[1, 1, 1], vec![1, 5, 0, 1, 6, 0]);
    stream.dict.set(b"Index".to_vec(), Object::Array(vec![Object::Integer(7), Object::Null]));
    let (xref, trailer) = decode_xref_rows(stream).unwrap();
    assert_eq!(
        entries(&xref),
        vec![
            (0, XrefEntry::Normal { offset: 5, generation: 0 }),
            (1, XrefEntry::Normal { offset: 6, generation: 0 }),
        ]
    );
    assert!(!trailer.has(b"Index"));
}

#[test]
fn compressed_content_goes_through_the_codec() {
    let mut stream = xref_stream(1, None, &[1, 1, 1], vec![0xde, 0xad]);
    stream.dict.set(b"Filter".to_vec(), Object::name("FlateDecode"));
    stream.dict.set(b"DecodeParms".to_vec(), Object::Dictionary(Dictionary::new()));
    assert!(stream.is_compressed());
    let failing = decode_xref_stream(stream.clone(), |_: &Stream| Err(Error::Decompress));
    assert_eq!(failing.unwrap_err(), Error::Decompress);
    let (xref, trailer) = decode_xref_stream(stream, |s: &Stream| {
        assert_eq!(s.content, vec![0xde, 0xad]);
        Ok(vec![1, 9, 4])
    })
    .unwrap();
    assert_eq!(entries(&xref), vec![(0, XrefEntry::Normal { offset: 9, generation: 4 })]);
    assert!(!trailer.has(b"Filter"));
    assert!(!trailer.has(b"DecodeParms"));
    assert!(!trailer.has(b"Length"));
}

#[test]
fn fields_are_read_big_endian() {
    let content = [0x12u8, 0x34, 0x56];
    let mut position = 0usize;
    assert_eq!(read_big_endian_integer(&content, &mut position, 2), Ok(0x1234));
    assert_eq!(position, 2);
    assert_eq!(read_big_endian_integer(&content, &mut position, 0), Ok(0));
    assert_eq!(read_big_endian_integer(&content, &mut position, 2), Err(Error::UnexpectedEof));
    assert_eq!(position, 2);
    assert_eq!(read_big_endian_integer(&content, &mut position, 1), Ok(0x56));
    assert_eq!(position, 3);
    let long = [0xffu8, 1, 2, 3, 4, 5, 6, 7, 8];
    let mut position = 0usize;
    assert_eq!(read_big_endian_integer(&long, &mut position, 9), Ok(0x0102_0304_0506_0708));
    let mut past = 7usize;
    assert_eq!(read_big_endian_integer(&content, &mut past, 0), Err(Error::UnexpectedEof));
}

#[test]
fn integer_arrays_are_parsed() {
    assert_eq!(parse_integer_array(&integers(&[3, -4, 5])), Ok(vec![3, -4, 5]));
    assert_eq!(parse_integer_array(&integers(&[])), Ok(vec![]));
    assert_eq!(parse_integer_array(&Object::Integer(3)), Err(Error::ObjectType));
    assert_eq!(
        parse_integer_array(&Object::Array(vec![Object::Integer(1), Object::Boolean(true)])),
        Err(Error::ObjectType)
    );
}

#[test]
fn dictionaries_keep_one_value_for_a_key() {
    let mut dict = Dictionary::new();
    assert_eq!(dict.get(b"A"), Err(Error::DictKey));
    dict.set(b"A".to_vec(), Object::Integer(1));
    dict.set(b"B".to_vec(), Object::Integer(2));
    dict.set(b"A".to_vec(), Object::Integer(3));
    assert_eq!(dict.len(), 2);
    assert_eq!(dict.get(b"A"), Ok(&Object::Integer(3)));
    dict.entries.push((b"A".to_vec(), Object::Integer(4)));
    assert_eq!(dict.remove(b"A"), Some(Object::Integer(3)));
    assert_eq!(dict.remove(b"A"), None);
    assert_eq!(dict.len(), 1);
    assert!(dict.has(b"B"));
    let copy = dict.clone();
    assert_eq!(copy, dict);
}

#[test]
fn streams_carry_their_length() {
    let mut stream = Stream::new(Dictionary::new(), vec![1, 2, 3]);
    assert_eq!(stream.dict.get(b"Length"), Ok(&Object::Integer(3)));
    assert!(!stream.is_compressed());
    stream.dict.set(b"Filter".to_vec(), Object::name("LZWDecode"));
    assert_eq!(stream.decompress(|_: &Stream| Err(Error::Decompress)), Err(Error::Decompress));
    assert!(stream.is_compressed());
    assert_eq!(stream.content, vec![1, 2, 3]);
    assert_eq!(stream.decompress(|_: &Stream| Ok(vec![9; 10])), Ok(()));
    assert!(!stream.is_compressed());
    assert_eq!(stream.content, vec![9; 10]);
    assert_eq!(stream.dict.get(b"Length"), Ok(&Object::Integer(10)));
    stream.dict.set(b"Filter".to_vec(), Object::name("FlateDecode"));
    stream.set_content(vec![4, 5]);
    assert!(stream.is_compressed());
    assert_eq!(stream.content, vec![4, 5]);
    assert_eq!(stream.dict.get(b"Length"), Ok(&Object::Integer(2)));
}

#[test]
fn a_later_section_shadows_an_earlier_one() {
    let mut later = Xref::new(10, XrefType::CrossReferenceStream);
    later.insert(1, XrefEntry::Normal { offset: 100, generation: 0 });
    later.insert(2, XrefEntry::Free);
    let mut earlier = Xref::new(8, XrefType::CrossReferenceTable);
    earlier.insert(1, XrefEntry::Normal { offset: 10, generation: 0 });
    earlier.insert(2, XrefEntry::Normal { offset: 20, generation: 0 });
    earlier.insert(3, XrefEntry::Compressed { container: 9, index: 1 });
    later.merge(&earlier);
    assert_eq!(
        entries(&later),
        vec![
            (1, XrefEntry::Normal { offset: 100, generation: 0 }),
            (2, XrefEntry::Free),
            (3, XrefEntry::Compressed { container: 9, index: 1 }),
        ]
    );
    assert_eq!(later.size, 10);
    assert_eq!(later.cross_reference_type, XrefType::CrossReferenceStream);
    assert_eq!(earlier.len(), 3);
}

#[test]
fn object_numbers_wrap_to_32_bits() {
    let content = vec![1, 10, 1, 11, 1, 12];
    let index = [-1, 2, 0x1_0000_0005, 1];
    let stream = xref_stream(9, Some(&index), &[1, 1, 0], content);
    let (xref, _) = decode_xref_rows(stream).unwrap();
    assert_eq!(
        entries(&xref),
        vec![
            (0, XrefEntry::Normal { offset: 11, generation: 0 }),
            (5, XrefEntry::Normal { offset: 12, generation: 0 }),
            (0xffff_ffff, XrefEntry::Normal { offset: 10, generation: 0 }),
        ]
    );
    let stream = xref_stream(-1, None, &[1, 1, 0], vec![]);
    let (xref, _) = decode_xref_rows(stream).unwrap();
    assert_eq!(xref.size, 0xffff_ffff);
    assert_eq!(xref.len(), 0);
}

#[test]
fn rows_of_unknown_type_are_reported() {
    let content = vec![0, 1, 1, 2, 3, 3, 2, 4, 9, 5, 1, 6];
    let stream = xref_stream(20, Some(&[10, 4, 3, 2]), &[1, 1, 0], content.clone());
    let (xref, trailer, warnings) =
        decode_xref_stream_with_warnings(stream, no_codec).unwrap();
    assert_eq!(
        entries(&xref),
        vec![
            (4, XrefEntry::Normal { offset: 6, generation: 0 }),
            (11, XrefEntry::Normal { offset: 2, generation: 0 }),
            (13, XrefEntry::Compressed { container: 4, index: 0 }),
        ]
    );
    assert!(!trailer.has(b"W"));
    assert_eq!(warnings, vec![Warning::UnknownRowType(12), Warning::UnknownRowType(3)]);
    let plain = xref_stream(2, None, &[1, 1, 0], vec![1, 2, 2, 3]);
    let (_, _, warnings) = decode_xref_rows_with_warnings(plain).unwrap();
    assert!(warnings.is_empty());
    let short = xref_stream(2, None, &[1, 1, 0], vec![7, 2, 2]);
    assert_eq!(decode_xref_rows_with_warnings(short).unwrap_err(), Error::UnexpectedEof);
}
