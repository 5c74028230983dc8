use lopdf::extract::{
    collect_text, extract_text_chunks_from_operations, extract_text_chunks_with_warnings,
};
use lopdf::replace::{replace_in_operations_with_warnings, Mode};
use lopdf::substitute::{
    encode, encode_with_fallback, replace_partial_in_array, replace_partial_in_operation,
    try_to_replace_encoded_text,
};
use lopdf::{
    Content, Dictionary, Document, Encoding, Error, Font, Object, Operation, Page, Real, Stream,
    StringFormat, Warning,
};

fn page_with(id: u32, operations: Vec<Operation>) -> Page {
    Page {
        id: (id, 0),
        fonts: vec![Font { name: b"F1".to_vec(), encoding: Ok(Encoding::latin1()) }],
        content: Content { operations },
        xobjects: Dictionary::new(),
    }
}

fn text_operations(text: &str) -> Vec<Operation> {
    vec![
        Operation::new("BT", vec![]),
        Operation::new("Tf", vec![Object::name("F1"), Object::Integer(48)]),
        Operation::new("Td", vec![Object::Integer(100), Object::Integer(600)]),
        Operation::new("Tj", vec![Object::string_literal(text)]),
        Operation::new("ET", vec![]),
    ]
}

fn create_document_with_texts(texts_for_pages: &[&str]) -> Document {
    let mut doc = Document::new();
    for (i, text) in texts_for_pages.iter().enumerate() {
        doc.pages.push(page_with(10 + i as u32, text_operations(text)));
    }
    doc
}

fn literal(text: &str) -> Object {
    Object::string_literal(text)
}

fn string_bytes(object: &Object) -> Vec<u8> {
    match object {
        Object::String(bytes, _) => bytes.clone(),
        other => panic!("not a string: {:?}", other),
    }
}

#[test]
fn extract_text_chunks() {
    let text1 = "Hello world!";
    let text2 = "Ferris is the best!";
    let doc = create_document_with_texts(&[text1, text2]);
    let extracted_texts = doc.extract_text_chunks(&[1, 2]);
    assert_eq!(extracted_texts.len(), 2);
    assert_eq!(
        [
            extracted_texts[0].as_ref().unwrap().trim(),
            extracted_texts[1].as_ref().unwrap().trim()
        ],
        [text1, text2]
    );
}

#[test]
fn extract_text_concatenates_text_from_multiple_pages() {
    let text1 = "Hello world!";
    let text2 = "Ferris is the best!";
    let doc = create_document_with_texts(&[text1, text2]);
    let extracted_text = doc.extract_text(&[1, 2]);
    assert_eq!(extracted_text.unwrap(), format!("{text1}\n{text2}\n"));
}

#[test]
fn test_replace_partial_text() {
    let mut doc = create_document_with_texts(&["Hello World! Hello Universe!"]);
    let replacements = doc.replace_partial_text(1, "Hello", "Hi", None).unwrap();
    assert_eq!(replacements, 2);

    let extracted_text = doc.extract_text(&[1]).unwrap();
    assert!(extracted_text.contains("Hi World! Hi Universe!"));
}

#[test]
fn test_replace() {
    let mut doc = create_document_with_texts(&["Hello World!"]);
    doc.replace_text(1, "Hello World!", "Modified text!", None).unwrap();
    assert_eq!(doc.extract_text(&[1]).unwrap(), "Modified text!\n");
}

#[test]
fn test_unicode_replace() {
    let mut table: Vec<Option<char>> = vec![None; 4];
    table[1] = Some('😀');
    table[2] = Some('🔧');
    table[3] = Some('🔨');
    let mut operations = Vec::new();
    for byte in [1u8, 2, 3] {
        operations.push(Operation::new("BT", vec![]));
        operations.push(Operation::new("Tf", vec![Object::name("F1"), Object::Integer(12)]));
        operations.push(Operation::new(
            "Tj",
            vec![Object::String(vec![byte], StringFormat::Hexadecimal)],
        ));
        operations.push(Operation::new("ET", vec![]));
    }
    let mut page = page_with(4, operations);
    page.fonts = vec![Font { name: b"F1".to_vec(), encoding: Ok(Encoding { table }) }];
    let mut doc = Document::new();
    doc.pages.push(page);
    doc.replace_text(1, "😀", "🔧", Some("  ")).unwrap();
    let text = doc.extract_text(&[1]).unwrap();
    assert_eq!(text, "🔧\n🔧\n🔨\n");
}

#[test]
fn test_get_object() {
    let mut doc = Document::new();
    let id = doc.add_object(Object::string_literal("test"));
    let id2 = doc.add_object(Object::Stream(Stream::new(
        Dictionary::new(),
        "stream".as_bytes().to_vec(),
    )));

    println!("{id:?}");
    println!("{id2:?}");

    let obj1_exists = doc.get_object(id).is_ok();
    let obj2_exists = doc.get_object(id2).is_ok();

    assert!(obj1_exists);
    assert!(obj2_exists);
    assert_eq!(doc.get_object((7, 0)), Err(Error::ObjectNotFound(7, 0)));
}

#[test]
fn single_text_object_gives_one_chunk() {
    let operations = vec![
        Operation::new("BT", vec![]),
        Operation::new("Tf", vec![Object::name("F1"), Object::Integer(12)]),
        Operation::new("Tj", vec![literal("Hello world!")]),
        Operation::new("ET", vec![]),
    ];
    let fonts = vec![Font { name: b"F1".to_vec(), encoding: Ok(Encoding::latin1()) }];
    let chunks = extract_text_chunks_from_operations(&fonts, &operations).unwrap();
    assert_eq!(chunks, vec![Ok("Hello world!\n".to_string())]);
}

#[test]
fn text_objects_under_one_font_share_a_chunk() {
    let operations = vec![
        Operation::new("Tf", vec![Object::name("F1"), Object::Integer(12)]),
        Operation::new("Tj", vec![literal("one")]),
        Operation::new("ET", vec![]),
        Operation::new("ET", vec![]),
        Operation::new("Tj", vec![literal("two")]),
        Operation::new("ET", vec![]),
    ];
    let fonts = vec![Font { name: b"F1".to_vec(), encoding: Ok(Encoding::latin1()) }];
    let chunks = extract_text_chunks_from_operations(&fonts, &operations).unwrap();
    assert_eq!(chunks, vec![Ok("one\ntwo\n".to_string())]);
}

#[test]
fn font_change_closes_the_chunk() {
    let operations = vec![
        Operation::new("Tf", vec![Object::name("F1")]),
        Operation::new("Tj", vec![literal("a")]),
        Operation::new("Tf", vec![Object::name("F2")]),
        Operation::new("Tj", vec![literal("b")]),
        Operation::new("Tf", vec![Object::Integer(3)]),
        Operation::new("Tj", vec![literal("dropped")]),
    ];
    let fonts = vec![
        Font { name: b"F0".to_vec(), encoding: Err(Error::DictKey) },
        Font { name: b"F1".to_vec(), encoding: Ok(Encoding::latin1()) },
        Font { name: b"F2".to_vec(), encoding: Ok(Encoding::latin1()) },
    ];
    let chunks = extract_text_chunks_from_operations(&fonts, &operations).unwrap();
    assert_eq!(
        chunks,
        vec![
            Err(Error::DictKey),
            Ok("a".to_string()),
            Err(Error::ObjectType),
            Ok("b".to_string()),
        ]
    );
}

#[test]
fn text_without_an_encoding_is_dropped() {
    let operations = vec![
        Operation::new("Tj", vec![literal("early")]),
        Operation::new("Tf", vec![Object::name("Unknown")]),
        Operation::new("Tj", vec![literal("late")]),
        Operation::new("ET", vec![]),
    ];
    let fonts = vec![Font { name: b"F1".to_vec(), encoding: Ok(Encoding::latin1()) }];
    let chunks = extract_text_chunks_from_operations(&fonts, &operations).unwrap();
    assert_eq!(chunks, vec![Ok("\n".to_string())]);
}

#[test]
fn set_font_without_operand_ends_the_page() {
    let operations = vec![
        Operation::new("Tf", vec![Object::name("F1")]),
        Operation::new("Tj", vec![literal("a")]),
        Operation::new("Tf", vec![]),
    ];
    let fonts = vec![Font { name: b"F1".to_vec(), encoding: Ok(Encoding::latin1()) }];
    assert_eq!(
        extract_text_chunks_from_operations(&fonts, &operations),
        Err(Error::MissingFontOperand)
    );
    let mut doc = Document::new();
    doc.pages.push(page_with(1, operations));
    assert_eq!(doc.extract_text_chunks(&[1]), vec![Err(Error::MissingFontOperand)]);
    assert_eq!(doc.extract_text(&[1]), Err(Error::MissingFontOperand));
    assert_eq!(doc.replace_text(1, "a", "b", None), Err(Error::MissingFontOperand));
}

#[test]
fn missing_page_is_reported_among_the_others() {
    let doc = create_document_with_texts(&["one", "two"]);
    let chunks = doc.extract_text_chunks(&[2, 0, 3, 1]);
    assert_eq!(
        chunks,
        vec![
            Ok("two\n".to_string()),
            Err(Error::PageNumberNotFound(0)),
            Err(Error::PageNumberNotFound(3)),
            Ok("one\n".to_string()),
        ]
    );
    assert_eq!(doc.extract_text(&[2, 3]), Err(Error::PageNumberNotFound(3)));
    assert_eq!(doc.extract_text(&[]), Ok(String::new()));
}

#[test]
fn kerned_array_collects_with_gaps() {
    let encoding = Encoding::latin1();
    let operands = vec![Object::Array(vec![
        literal("H"),
        Object::Integer(-5),
        literal("i"),
        Object::Integer(-100),
        literal("x"),
        Object::Integer(-99),
        Object::Real(Real { bits: (-250.5f32).to_bits() }),
        Object::Real(Real { bits: (-99.5f32).to_bits() }),
        Object::Real(Real { bits: (250.0f32).to_bits() }),
        literal("y"),
    ])];
    let mut text: Vec<char> = Vec::new();
    collect_text(&mut text, &encoding, &operands).unwrap();
    assert_eq!(text.iter().collect::<String>(), "Hi x y ");
}

#[test]
fn undecodable_string_keeps_the_text_before_it() {
    let encoding = Encoding { table: vec![None, Some('a')] };
    let operands = vec![
        Object::String(vec![1, 1], StringFormat::Literal),
        Object::String(vec![1, 0], StringFormat::Literal),
        Object::String(vec![1], StringFormat::Literal),
    ];
    let mut text: Vec<char> = vec!['>'];
    assert_eq!(collect_text(&mut text, &encoding, &operands), Err(Error::CharacterEncoding));
    assert_eq!(text, vec!['>', 'a', 'a']);

    let operations = vec![
        Operation::new("Tf", vec![Object::name("F1")]),
        Operation::new("Tj", operands),
        Operation::new("ET", vec![]),
    ];
    let fonts = vec![Font { name: b"F1".to_vec(), encoding: Ok(encoding) }];
    let chunks = extract_text_chunks_from_operations(&fonts, &operations).unwrap();
    assert_eq!(chunks, vec![Err(Error::CharacterEncoding), Ok("aa\n".to_string())]);
}

#[test]
fn encoding_decodes_and_encodes() {
    let encoding = Encoding { table: vec![Some('x'), None, Some('y'), Some('x')] };
    assert_eq!(encoding.decode(&[0, 2, 3]), Ok("xyx".to_string()));
    assert_eq!(encoding.decode(&[0, 1]), Err(Error::CharacterEncoding));
    assert_eq!(encoding.decode(&[9]), Err(Error::CharacterEncoding));
    assert_eq!(encoding.decode(&[]), Ok(String::new()));
    assert_eq!(encoding.encode("xyx"), vec![0, 2, 0]);
    assert_eq!(encoding.encode("xz"), Vec::<u8>::new());
    let latin = Encoding::latin1();
    assert_eq!(latin.decode(&[72, 105, 0xe9]), Ok("Hié".to_string()));
    assert_eq!(latin.encode("Hié"), vec![72, 105, 0xe9]);
    assert_eq!(latin.encode("€"), Vec::<u8>::new());
}

#[test]
fn encode_falls_back_character_by_character() {
    let latin = Encoding::latin1();
    assert_eq!(encode(&latin, "a€b", "?"), b"a?b".to_vec());
    assert_eq!(encode(&latin, "a€b", ""), b"ab".to_vec());
    assert_eq!(encode(&latin, "€", "??"), b"??".to_vec());
    assert_eq!(encode(&latin, "", "-"), b"-".to_vec());
    assert_eq!(encode(&latin, "ab", "?"), b"ab".to_vec());
    assert_eq!(encode_with_fallback(&latin, "abc", "?"), b"abc".to_vec());
    assert_eq!(encode_with_fallback(&latin, "a€c", "?"), b"a?c".to_vec());
    assert_eq!(encode_with_fallback(&latin, "", "?"), b"?".to_vec());
}

#[test]
fn exact_replacement_of_a_string() {
    let latin = Encoding::latin1();
    let mut operation = Operation::new(
        "Tj",
        vec![literal("Hello"), Object::Integer(7), literal("Hello!"), literal("Hello")],
    );
    try_to_replace_encoded_text(&mut operation, &latin, "Hello", "Bye", "").unwrap();
    assert_eq!(
        operation.operands,
        vec![literal("Bye"), Object::Integer(7), literal("Hello!"), literal("Bye")]
    );
}

#[test]
fn exact_replacement_spreads_over_a_kerned_array() {
    let latin = Encoding::latin1();
    let mut operation = Operation::new(
        "TJ",
        vec![Object::Array(vec![literal("H"), Object::Integer(-5), literal("i")])],
    );
    try_to_replace_encoded_text(&mut operation, &latin, "Hi", "Bye", "").unwrap();
    assert_eq!(
        operation.operands,
        vec![Object::Array(vec![literal("B"), Object::Integer(-5), literal("ye")])]
    );
}

#[test]
fn exact_replacement_nulls_slots_past_the_replacement() {
    let latin = Encoding::latin1();
    let mut operation = Operation::new(
        "TJ",
        vec![Object::Array(vec![
            literal("a"),
            literal("b"),
            literal("c"),
            literal("d"),
            literal("ef"),
            literal("g"),
        ])],
    );
    try_to_replace_encoded_text(&mut operation, &latin, "abcdefg", "X", "-").unwrap();
    assert_eq!(
        operation.operands,
        vec![Object::Array(vec![
            literal("X"),
            Object::Null,
            Object::Null,
            Object::Null,
            Object::Null,
            Object::Null,
        ])]
    );

    let mut four = Operation::new(
        "TJ",
        vec![Object::Array(vec![literal("a"), literal("b"), literal("c"), literal("d")])],
    );
    try_to_replace_encoded_text(&mut four, &latin, "abcd", "X", "").unwrap();
    assert_eq!(
        four.operands,
        vec![Object::Array(vec![literal("X"), Object::Null, Object::Null, literal("")])]
    );

    let mut short = Operation::new(
        "TJ",
        vec![Object::Array(vec![literal("ab"), literal("c"), literal("d")])],
    );
    try_to_replace_encoded_text(&mut short, &latin, "abcd", "wxyz!", "").unwrap();
    assert_eq!(
        short.operands,
        vec![Object::Array(vec![literal("w"), literal("x"), literal("y")])]
    );

    let mut last = Operation::new(
        "TJ",
        vec![Object::Array(vec![literal("a"), literal("b"), literal("c")])],
    );
    try_to_replace_encoded_text(&mut last, &latin, "ab", "xyz", "").unwrap();
    assert_eq!(last.operands, vec![Object::Array(vec![literal("a"), literal("b"), literal("c")])]);
    try_to_replace_encoded_text(&mut last, &latin, "abc", "xy", "").unwrap();
    assert_eq!(last.operands, vec![Object::Array(vec![literal("x"), literal("y"), literal("")])]);
}

#[test]
fn exact_replacement_stops_at_an_undecodable_string() {
    let encoding = Encoding { table: vec![None, Some('a'), Some('b')] };
    let mut operation = Operation::new(
        "Tj",
        vec![
            Object::String(vec![1], StringFormat::Literal),
            Object::String(vec![0], StringFormat::Literal),
            Object::String(vec![1], StringFormat::Literal),
        ],
    );
    assert_eq!(
        try_to_replace_encoded_text(&mut operation, &encoding, "a", "b", ""),
        Err(Error::CharacterEncoding)
    );
    assert_eq!(string_bytes(&operation.operands[0]), vec![2]);
    assert_eq!(string_bytes(&operation.operands[2]), vec![1]);
}

#[test]
fn partial_replacement_counts_every_occurrence() {
    let latin = Encoding::latin1();
    let mut operation = Operation::new(
        "TJ",
        vec![
            literal("aXbXX"),
            Object::Array(vec![literal("X"), Object::Integer(-120), literal("no"), literal("XaX")]),
            Object::Integer(1),
        ],
    );
    let count = replace_partial_in_operation(&mut operation, &latin, "X", "yz", "?").unwrap();
    assert_eq!(count, 6);
    assert_eq!(
        operation.operands,
        vec![
            literal("ayzbyzyz"),
            Object::Array(vec![
                literal("yz"),
                Object::Integer(-120),
                literal("no"),
                literal("yzayz"),
            ]),
            Object::Integer(1),
        ]
    );

    let mut items = vec![literal("aaa"), Object::Array(vec![literal("aaa")]), literal("ba")];
    let count = replace_partial_in_array(&mut items, &latin, "aa", "€", "?").unwrap();
    assert_eq!(count, 1);
    assert_eq!(items, vec![literal("?a"), Object::Array(vec![literal("aaa")]), literal("ba")]);
}

#[test]
fn partial_replacement_without_occurrence_changes_nothing() {
    let mut doc = create_document_with_texts(&["Hello World!"]);
    assert_eq!(doc.replace_partial_text(1, "Bye", "Hi", None), Ok(0));
    assert_eq!(doc.extract_text(&[1]).unwrap(), "Hello World!\n");
    assert_eq!(doc.replace_partial_text(2, "Hello", "Hi", None), Err(Error::PageNumberNotFound(2)));
    assert_eq!(doc.replace_partial_text(0, "World", "You", None), Ok(1));
    assert_eq!(doc.extract_text(&[1]).unwrap(), "Hello You!\n");
}

#[test]
fn partial_replacement_uses_the_default_character() {
    let mut doc = create_document_with_texts(&["price: 5"]);
    assert_eq!(doc.replace_partial_text(1, "5", "5 €", None), Ok(1));
    assert_eq!(doc.extract_text(&[1]).unwrap(), "price: 5 ?\n");
    assert_eq!(doc.replace_partial_text(1, "?", "€", Some("EUR")), Ok(1));
    assert_eq!(doc.extract_text(&[1]).unwrap(), "price: 5 EUR\n");
}

#[test]
fn replacement_under_an_unresolved_font_is_skipped() {
    let mut doc = create_document_with_texts(&["Hello"]);
    doc.pages[0].fonts = vec![Font { name: b"F1".to_vec(), encoding: Err(Error::DictKey) }];
    assert_eq!(doc.replace_text(1, "Hello", "Bye", None), Ok(()));
    assert_eq!(doc.replace_partial_text(1, "Hello", "Bye", None), Ok(0));
    assert_eq!(doc.pages[0].content.operations[3].operands, vec![literal("Hello")]);
    assert_eq!(doc.extract_text_chunks(&[1]), vec![Err(Error::DictKey), Ok("\n".to_string())]);
}

#[test]
fn page_content_is_read_and_extended() {
    let mut doc = create_document_with_texts(&["one"]);
    let content = doc.get_and_decode_page_content((10, 0)).unwrap();
    assert_eq!(content.operations.len(), 5);
    assert_eq!(
        doc.get_and_decode_page_content((99, 0)).unwrap_err(),
        Error::PageNotFound(99, 0)
    );
    let more = Content { operations: text_operations("two") };
    doc.add_to_page_content((10, 0), more).unwrap();
    assert_eq!(doc.extract_text(&[1]).unwrap(), "one\ntwo\n");
    let none = Content { operations: vec![] };
    assert_eq!(doc.add_to_page_content((11, 0), none), Err(Error::PageNotFound(11, 0)));
}

#[test]
fn form_object_wraps_the_content() {
    let mut doc = create_document_with_texts(&["one"]);
    doc.max_id = 41;
    let form = Stream::new(Dictionary::new(), b"0 0 m".to_vec());
    doc.insert_form_object((10, 0), form).unwrap();
    let operations = &doc.pages[0].content.operations;
    assert_eq!(operations.len(), 8);
    assert_eq!(operations[0], Operation::new("q", vec![]));
    assert_eq!(operations[6], Operation::new("Q", vec![]));
    assert_eq!(operations[7], Operation::new("Do", vec![Object::name("X42")]));
    assert_eq!(doc.pages[0].xobjects.get(b"X42"), Ok(&Object::Reference((42, 0))));
    assert!(doc.get_object((42, 0)).is_ok());
    assert_eq!(doc.max_id, 42);

    let other = Stream::new(Dictionary::new(), vec![]);
    assert_eq!(doc.insert_form_object((1, 0), other), Err(Error::PageNotFound(1, 0)));
    assert!(doc.get_object((43, 0)).is_ok());
}

#[test]
fn image_is_drawn_after_the_content() {
    let mut doc = create_document_with_texts(&["one"]);
    doc.max_id = 1_234_567_889;
    let image = Stream::new(Dictionary::new(), vec![1, 2, 3]);
    let position = (Real { bits: 10.5f32.to_bits() }, Real { bits: 20.0f32.to_bits() });
    let size = (Real { bits: 100.0f32.to_bits() }, Real { bits: 50.0f32.to_bits() });
    doc.insert_image((10, 0), image, position, size).unwrap();
    let operations = &doc.pages[0].content.operations;
    assert_eq!(operations.len(), 9);
    assert_eq!(operations[5], Operation::new("q", vec![]));
    assert_eq!(
        operations[6],
        Operation::new(
            "cm",
            vec![
                Object::Real(size.0),
                Object::Integer(0),
                Object::Integer(0),
                Object::Real(size.1),
                Object::Real(position.0),
                Object::Real(position.1),
            ]
        )
    );
    assert_eq!(operations[7], Operation::new("Do", vec![Object::name("X1234567890")]));
    assert_eq!(operations[8], Operation::new("Q", vec![]));
    assert_eq!(
        doc.pages[0].xobjects.get(b"X1234567890"),
        Ok(&Object::Reference((1_234_567_890, 0)))
    );
}

#[test]
fn page_content_is_changed_as_a_whole() {
    let mut doc = create_document_with_texts(&["one", "two"]);
    let content = Content { operations: text_operations("three") };
    doc.change_page_content((11, 0), content).unwrap();
    assert_eq!(doc.extract_text(&[1, 2]).unwrap(), "one\nthree\n");
    let none = Content { operations: vec![] };
    assert_eq!(doc.change_page_content((12, 0), none), Err(Error::PageNotFound(12, 0)));
    doc.add_xobject((10, 0), b"X1".to_vec(), (5, 0)).unwrap();
    doc.add_xobject((10, 0), b"X1".to_vec(), (6, 0)).unwrap();
    assert_eq!(doc.pages[0].xobjects.len(), 1);
    assert_eq!(doc.pages[0].xobjects.get(b"X1"), Ok(&Object::Reference((6, 0))));
    assert_eq!(doc.add_xobject((1, 0), b"X1".to_vec(), (5, 0)), Err(Error::PageNotFound(1, 0)));
    assert_eq!(doc.find_page((11, 0)), 1);
    assert_eq!(doc.find_page((11, 1)), 2);
    let copy = doc.pages[1].clone();
    assert_eq!(copy.content, doc.pages[1].content);
}

#[test]
fn the_first_font_that_resolves_serves_a_name() {
    let upper = Encoding { table: vec![Some('A'), Some('B')] };
    let lower = Encoding { table: vec![Some('a'), Some('b')] };
    let fonts = vec![
        Font { name: b"F1".to_vec(), encoding: Err(Error::ObjectType) },
        Font { name: b"F1".to_vec(), encoding: Ok(lower) },
        Font { name: b"F1".to_vec(), encoding: Ok(upper) },
    ];
    let operations = vec![
        Operation::new("Tf", vec![Object::name("F1")]),
        Operation::new("Tj", vec![Object::String(vec![1, 0], StringFormat::Literal)]),
    ];
    let chunks = extract_text_chunks_from_operations(&fonts, &operations).unwrap();
    assert_eq!(chunks, vec![Err(Error::ObjectType), Ok("ba".to_string())]);
}

#[test]
fn a_gap_is_a_number_of_minus_100_or_less() {
    let encoding = Encoding::latin1();
    let gaps = [
        (Object::Integer(-100), true),
        (Object::Integer(-99), false),
        (Object::Integer(i64::MIN), true),
        (Object::Integer(100), false),
        (Object::Real(Real { bits: (-100.0f32).to_bits() }), true),
        (Object::Real(Real { bits: (-99.99999f32).to_bits() }), false),
        (Object::Real(Real { bits: (-0.0f32).to_bits() }), false),
        (Object::Real(Real { bits: f32::NEG_INFINITY.to_bits() }), true),
        (Object::Real(Real { bits: f32::INFINITY.to_bits() }), false),
        (Object::Real(Real { bits: f32::MIN.to_bits() }), true),
        (Object::Real(Real { bits: 0xffc0_0000 }), false),
        (Object::Real(Real { bits: 100.0f32.to_bits() }), false),
        (Object::Null, false),
        (Object::name("x"), false),
    ];
    for (gap, wide) in gaps {
        let mut text: Vec<char> = Vec::new();
        collect_text(&mut text, &encoding, &vec![literal("a"), gap, literal("b")]).unwrap();
        let expected = if wide { "a b" } else { "ab" };
        assert_eq!(text.iter().collect::<String>(), expected);
    }
}

#[test]
fn dropped_text_is_reported() {
    let operations = vec![
        Operation::new("Tj", vec![literal("early")]),
        Operation::new("Tf", vec![Object::name("Unknown")]),
        Operation::new("TJ", vec![literal("late")]),
        Operation::new("Tf", vec![Object::name("F1")]),
        Operation::new("Tj", vec![literal("shown")]),
        Operation::new("Tf", vec![Object::Integer(1)]),
        Operation::new("Tj", vec![literal("lost")]),
        Operation::new("Tf", vec![]),
        Operation::new("Tj", vec![literal("never reached")]),
    ];
    let fonts = vec![Font { name: b"F1".to_vec(), encoding: Ok(Encoding::latin1()) }];
    let (chunks, warnings) = extract_text_chunks_with_warnings(&fonts, &operations);
    assert_eq!(chunks, Err(Error::MissingFontOperand));
    assert_eq!(
        warnings,
        vec![
            Warning::TextWithoutEncoding(0),
            Warning::TextWithoutEncoding(2),
            Warning::TextWithoutEncoding(6),
        ]
    );
    let (chunks, warnings) = extract_text_chunks_with_warnings(&fonts, &text_operations("fine"));
    assert_eq!(chunks, Ok(vec![Ok("fine\n".to_string())]));
    assert!(warnings.is_empty());

    let mut doc = Document::new();
    doc.pages.push(page_with(1, operations));
    let (chunks, warnings) = doc.extract_text_chunks_from_page_with_warnings(1);
    assert_eq!(chunks, Err(Error::MissingFontOperand));
    assert_eq!(warnings.len(), 3);
    let (chunks, warnings) = doc.extract_text_chunks_from_page_with_warnings(2);
    assert_eq!(chunks, Err(Error::PageNumberNotFound(2)));
    assert!(warnings.is_empty());
}

#[test]
fn what_a_replacing_pass_passes_over_is_reported() {
    let operations = vec![
        Operation::new("Tj", vec![literal("Hello")]),
        Operation::new("Tf", vec![Object::name("F2")]),
        Operation::new("Tj", vec![literal("Hello")]),
        Operation::new("Tf", vec![Object::name("F1")]),
        Operation::new("Tj", vec![literal("Hello")]),
    ];
    let fonts = vec![
        Font { name: b"F2".to_vec(), encoding: Err(Error::DictKey) },
        Font { name: b"F1".to_vec(), encoding: Ok(Encoding::latin1()) },
        Font { name: b"F3".to_vec(), encoding: Err(Error::ObjectType) },
    ];
    for mode in [Mode::Exact, Mode::Partial] {
        let (result, warnings) = replace_in_operations_with_warnings(
            mode,
            &fonts,
            operations.clone(),
            "Hello",
            "Bye",
            "",
        );
        let (changed, count) = result.unwrap();
        assert_eq!(count, if mode == Mode::Exact { 0 } else { 1 });
        assert_eq!(changed[0].operands, vec![literal("Hello")]);
        assert_eq!(changed[2].operands, vec![literal("Hello")]);
        assert_eq!(changed[4].operands, vec![literal("Bye")]);
        assert_eq!(
            warnings,
            vec![
                Warning::UnresolvedFont(0),
                Warning::UnresolvedFont(2),
                Warning::TextWithoutEncoding(0),
                Warning::TextWithoutEncoding(2),
            ]
        );
    }

    let mut doc = Document::new();
    let mut page = page_with(1, operations);
    page.fonts = fonts;
    doc.pages.push(page);
    let (count, warnings) = doc.replace_with_warnings(Mode::Partial, 1, "l", "L", None);
    assert_eq!(count, Ok(2));
    assert_eq!(warnings.len(), 4);
    assert_eq!(doc.pages[0].content.operations[4].operands, vec![literal("HeLLo")]);
    let (count, warnings) = doc.replace_with_warnings(Mode::Exact, 1, "HeLLo", "€", None);
    assert_eq!(count, Ok(0));
    assert_eq!(warnings.len(), 4);
    assert_eq!(doc.pages[0].content.operations[4].operands, vec![literal("")]);
    let (count, warnings) = doc.replace_with_warnings(Mode::Exact, 5, "a", "b", None);
    assert_eq!(count, Err(Error::PageNumberNotFound(5)));
    assert!(warnings.is_empty());
}
