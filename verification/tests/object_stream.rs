use lopdf::index_block::{parse_number, read_index_entries, split_words};
use lopdf::{Dictionary, Error, Object, ObjectStream, Stream, Warning};

fn packed(first: Option<Object>, n: Option<Object>, content: &[u8]) -> Stream {
    let mut dict = Dictionary::new();
    dict.set(b"Type".to_vec(), Object::name("ObjStm"));
    if let Some(first) = first {
        dict.set(b"First".to_vec(), first);
    }
    if let Some(n) = n {
        dict.set(b"N".to_vec(), n);
    }
    Stream::new(dict, content.to_vec())
}

fn no_codec(_stream: &Stream) -> Result<Vec<u8>, Error> {
    Err(Error::Decompress)
}

/// Reads a run of digits as an integer object.
fn parse_integer_at(bytes: &[u8], offset: usize) -> Option<Object> {
    let digits: Vec<u8> =
        bytes[offset..].iter().copied().take_while(|b| b.is_ascii_digit()).collect();
    if digits.is_empty() {
        return None;
    }
    String::from_utf8(digits).ok()?.parse().ok().map(Object::Integer)
}

fn objects(stream: &ObjectStream) -> Vec<((u32, u16), Object)> {
    stream.objects.iter().map(|(k, v)| (*k, v.clone())).collect()
}

fn chars(text: &str) -> Vec<char> {
    text.chars().collect()
}

#[test]
fn packed_objects_are_bound_to_their_numbers() {
    let content = b"11 0 12 4 13 7 111 22 3333";
    let mut stream = packed(Some(Object::Integer(15)), Some(Object::Integer(3)), content);
    let decoded = ObjectStream::new(&mut stream, no_codec, parse_integer_at).unwrap();
    assert_eq!(
        objects(&decoded),
        vec![
            ((11, 0), Object::Integer(111)),
            ((12, 0), Object::Integer(22)),
            ((13, 0), Object::Integer(3333)),
        ]
    );
}

#[test]
fn an_unpaired_number_is_dropped() {
    let content = b"11 0 12 4 13 111 22 3333";
    let mut stream = packed(Some(Object::Integer(13)), Some(Object::Integer(2)), content);
    let decoded = ObjectStream::new(&mut stream, no_codec, parse_integer_at).unwrap();
    assert_eq!(
        objects(&decoded),
        vec![((11, 0), Object::Integer(111)), ((12, 0), Object::Integer(22))]
    );
    assert_eq!(read_index_entries(&chars("1 2 3"), 0, 10), vec![(1, 2)]);
    assert_eq!(read_index_entries(&chars("1 2 3 4 5"), 1, 10), vec![(1, 3), (3, 5)]);
}

#[test]
fn bad_entries_are_skipped() {
    let content = b"1 0 x 2 3 -4 4 900 5 4 6 +6 7 11\n10 ab 22 33";
    let first = 33;
    let mut stream = packed(Some(Object::Integer(first)), Some(Object::Integer(7)), content);
    assert_eq!(
        ObjectStream::index(&stream),
        Ok(vec![(1, 33), (5, 37), (6, 39)])
    );
    let decoded = ObjectStream::new(&mut stream, no_codec, parse_integer_at).unwrap();
    assert_eq!(
        objects(&decoded),
        vec![((1, 0), Object::Integer(10)), ((6, 0), Object::Integer(22))]
    );
}

#[test]
fn a_repeated_number_takes_the_later_object() {
    let bindings = vec![
        (4, Some(Object::Integer(1))),
        (5, None),
        (4, Some(Object::Integer(2))),
        (4, None),
    ];
    let bound = ObjectStream::from_bindings(bindings);
    assert_eq!(objects(&bound), vec![((4, 0), Object::Integer(2))]);
}

#[test]
fn the_order_of_parsing_does_not_matter() {
    let bindings = vec![
        (7, Some(Object::Integer(70))),
        (3, None),
        (9, Some(Object::name("nine"))),
        (1, Some(Object::Null)),
    ];
    let mut shuffled = vec![
        bindings[2].clone(),
        bindings[3].clone(),
        bindings[0].clone(),
        bindings[1].clone(),
    ];
    let forward = ObjectStream::from_bindings(bindings.clone());
    assert_eq!(objects(&ObjectStream::from_bindings(shuffled.clone())), objects(&forward));
    shuffled.reverse();
    assert_eq!(objects(&ObjectStream::from_bindings(shuffled)), objects(&forward));
    assert_eq!(
        objects(&forward),
        vec![
            ((1, 0), Object::Null),
            ((7, 0), Object::Integer(70)),
            ((9, 0), Object::name("nine")),
        ]
    );
}

#[test]
fn empty_content_packs_nothing() {
    let mut stream = packed(None, None, b"");
    let decoded = ObjectStream::new(&mut stream, no_codec, parse_integer_at).unwrap();
    assert!(decoded.objects.is_empty());
    assert!(ObjectStream::from_bindings(vec![]).objects.is_empty());
}

#[test]
fn structural_failures_are_errors() {
    let content = b"1 0 5";
    assert_eq!(
        ObjectStream::index(&packed(None, Some(Object::Integer(1)), content)),
        Err(Error::DictKey)
    );
    assert_eq!(
        ObjectStream::index(&packed(Some(Object::name("4")), Some(Object::Integer(1)), content)),
        Err(Error::ObjectType)
    );
    assert_eq!(
        ObjectStream::index(&packed(Some(Object::Integer(-1)), Some(Object::Integer(1)), content)),
        Err(Error::NumericCast)
    );
    assert_eq!(
        ObjectStream::index(&packed(Some(Object::Integer(6)), Some(Object::Integer(1)), content)),
        Err(Error::InvalidOffset(6))
    );
    assert_eq!(
        ObjectStream::index(&packed(Some(Object::Integer(4)), None, content)),
        Err(Error::DictKey)
    );
    assert_eq!(
        ObjectStream::index(&packed(Some(Object::Integer(4)), Some(Object::Null), content)),
        Err(Error::ObjectType)
    );
    assert_eq!(
        ObjectStream::index(&packed(
            Some(Object::Integer(4)),
            Some(Object::Integer(1)),
            &[b'1', 0xff, b'0', b' ', b'5']
        )),
        Err(Error::InvalidObjectStream)
    );
    assert_eq!(
        ObjectStream::index(&packed(Some(Object::Integer(5)), Some(Object::Integer(1)), content)),
        Ok(vec![])
    );
    let mut stream = packed(None, Some(Object::Integer(1)), content);
    let failed = ObjectStream::new(&mut stream, no_codec, parse_integer_at);
    assert_eq!(failed.unwrap_err(), Error::DictKey);
}

#[test]
fn filters_are_undone_before_the_index_is_read() {
    let mut stream = packed(Some(Object::Integer(4)), Some(Object::Integer(1)), &[0, 1, 2]);
    stream.dict.set(b"Filter".to_vec(), Object::name("FlateDecode"));
    let decoded = ObjectStream::new(
        &mut stream,
        |_: &Stream| Ok(b"8 0 123".to_vec()),
        parse_integer_at,
    )
    .unwrap();
    assert_eq!(objects(&decoded), vec![((8, 0), Object::Integer(123))]);
    assert_eq!(stream.content, b"8 0 123".to_vec());
    assert!(!stream.is_compressed());
}

#[test]
fn words_are_split_at_white_space() {
    let words = split_words(&chars(" 12\t+3\u{a0}\u{2003}x\u{3000}\r\n45 "));
    let expected: Vec<Vec<char>> = vec![chars("12"), chars("+3"), chars("x"), chars("45")];
    assert_eq!(words, expected);
    assert_eq!(split_words(&chars("")), Vec::<Vec<char>>::new());
    assert_eq!(split_words(&chars(" \n ")), Vec::<Vec<char>>::new());
    assert_eq!(split_words(&chars("a\u{200b}b")), vec![chars("a\u{200b}b")]);
}

#[test]
fn numbers_are_decimal() {
    assert_eq!(parse_number(&chars("0")), Some(0));
    assert_eq!(parse_number(&chars("007")), Some(7));
    assert_eq!(parse_number(&chars("+15")), Some(15));
    assert_eq!(parse_number(&chars("4294967295")), Some(4294967295));
    assert_eq!(parse_number(&chars("4294967296")), None);
    assert_eq!(parse_number(&chars("99999999999999999999999")), None);
    assert_eq!(parse_number(&chars("")), None);
    assert_eq!(parse_number(&chars("+")), None);
    assert_eq!(parse_number(&chars("-1")), None);
    assert_eq!(parse_number(&chars("++1")), None);
    assert_eq!(parse_number(&chars("1a")), None);
    assert_eq!(parse_number(&chars("١")), None);
}

#[test]
fn words_and_numbers_agree_with_the_standard_library() {
    let texts = [
        "",
        " ",
        "1 2  3\t4\n5\r\n6\u{b}7\u{c}8",
        "\u{85}9\u{a0}10\u{1680}11\u{2000}12\u{200a}13\u{2028}14\u{2029}15\u{202f}16\u{205f}17\u{3000}",
        "a\u{200b}b\u{feff}c\u{180e}d",
        "  leading and trailing  ",
        "+1 -1 1e3 0x10 ٣ 4294967295 4294967296 00000000000000000001 + ++ +-1 1+",
    ];
    for text in texts {
        let expected: Vec<Vec<char>> = text.split_whitespace().map(chars).collect();
        let words = split_words(&chars(text));
        assert_eq!(words, expected);
        for word in &words {
            let token: String = word.iter().collect();
            assert_eq!(parse_number(word), token.parse::<u32>().ok());
        }
    }
    for code in 0..0x3100u32 {
        if let Some(c) = char::from_u32(code) {
            assert_eq!(lopdf::index_block::is_whitespace(c), c.is_whitespace());
        }
    }
}

#[test]
fn what_the_index_passes_over_is_returned() {
    let content = b"1 0 x 2 3 -4 4 900 5 4 6 +6 7 11\n10 ab 22 33";
    let first = 33;
    let stream = packed(Some(Object::Integer(first)), Some(Object::Integer(7)), content);
    let (entries, warnings) = ObjectStream::index_with_warnings(&stream).unwrap();
    assert_eq!(entries, vec![(1, 33), (5, 37), (6, 39)]);
    assert_eq!(
        warnings,
        vec![
            Warning::WrongObjectCount,
            Warning::OffsetOutOfBounds(4),
            Warning::OffsetOutOfBounds(7),
        ]
    );
    let mut stream = stream;
    let (decoded, warnings) =
        ObjectStream::new_with_warnings(&mut stream, no_codec, parse_integer_at).unwrap();
    assert_eq!(
        objects(&decoded),
        vec![((1, 0), Object::Integer(10)), ((6, 0), Object::Integer(22))]
    );
    assert_eq!(
        warnings,
        vec![
            Warning::WrongObjectCount,
            Warning::OffsetOutOfBounds(4),
            Warning::OffsetOutOfBounds(7),
            Warning::ObjectNotParsed(5),
        ]
    );
}

#[test]
fn a_fitting_index_gives_no_warning() {
    let content = b"11 0 12 4 13 7 111 22 3333";
    for (declared, expected) in [(3, vec![]), (2, vec![Warning::WrongObjectCount])] {
        let mut stream =
            packed(Some(Object::Integer(15)), Some(Object::Integer(declared)), content);
        let (decoded, warnings) =
            ObjectStream::new_with_warnings(&mut stream, no_codec, parse_integer_at).unwrap();
        assert_eq!(decoded.objects.len(), 3);
        assert_eq!(warnings, expected);
    }
    let mut empty = packed(None, None, b"");
    let (decoded, warnings) =
        ObjectStream::new_with_warnings(&mut empty, no_codec, parse_integer_at).unwrap();
    assert!(decoded.objects.is_empty());
    assert!(warnings.is_empty());
    let mut broken = packed(None, Some(Object::Integer(1)), b"1 0 5");
    let failed = ObjectStream::new_with_warnings(&mut broken, no_codec, parse_integer_at);
    assert_eq!(failed.unwrap_err(), Error::DictKey);
    let bindings = vec![(4, None), (5, Some(Object::Null)), (4, None)];
    assert_eq!(
        ObjectStream::unparsed(&bindings),
        vec![Warning::ObjectNotParsed(4), Warning::ObjectNotParsed(4)]
    );
}
