use lopdf::search::{chars_eq, matches_at, replace_all};
use lopdf::text::{chars_of, string_of};
use lopdf::{
    substr, substring, Content, Dictionary, Document, Error, Object, Operation, ParseError, Stream,
};

/// Writes each operation as its operator, one for a line.
fn write_operators(operations: &Vec<Operation>) -> Vec<u8> {
    let mut out = Vec::new();
    for operation in operations {
        out.extend(operation.operator.as_bytes());
        out.push(b'\n');
    }
    out
}

/// Reads operators, one from a line; a line that is no word is an error.
fn read_operators(data: &[u8]) -> Option<Vec<Operation>> {
    let text = std::str::from_utf8(data).ok()?;
    let mut out = Vec::new();
    for line in text.split_whitespace() {
        if !line.chars().all(|c| c.is_ascii_alphabetic()) {
            return None;
        }
        out.push(Operation::new(line, vec![]));
    }
    Some(out)
}

fn chars(text: &str) -> Vec<char> {
    text.chars().collect()
}

fn replaced(text: &str, pattern: &str, replacement: &str) -> (String, usize) {
    let (out, count) = replace_all(&chars(text), &chars(pattern), &chars(replacement));
    (out.into_iter().collect(), count)
}

#[test]
fn content_goes_through_the_codec() {
    let content = Content::decode(b"BT  ET\nq", read_operators).unwrap();
    assert_eq!(
        content.operations,
        vec![
            Operation::new("BT", vec![]),
            Operation::new("ET", vec![]),
            Operation::new("q", vec![]),
        ]
    );
    let bytes = content.encode(write_operators).unwrap();
    assert_eq!(bytes, b"BT\nET\nq\n".to_vec());
    let again = Content::decode(&bytes, read_operators).unwrap();
    assert_eq!(again, content);
    assert_eq!(again.clone(), content);
}

#[test]
fn content_that_does_not_parse_is_an_error() {
    let failed = Content::decode(b"BT 12 ET", read_operators);
    assert_eq!(failed.unwrap_err(), Error::Parse(ParseError::InvalidContentStream));
    let stream = Stream::new(Dictionary::new(), b"q Q".to_vec());
    let content = stream.decode_content(read_operators).unwrap();
    assert_eq!(content.operations.len(), 2);
    let stream = Stream::new(Dictionary::new(), vec![0xff]);
    assert_eq!(
        stream.decode_content(read_operators).unwrap_err(),
        Error::Parse(ParseError::InvalidContentStream)
    );
    assert_eq!(
        Content::from_parsed(None).unwrap_err(),
        Error::Parse(ParseError::InvalidContentStream)
    );
    let operations = vec![Operation::new("Tj", vec![Object::Null])];
    assert_eq!(Content::from_parsed(Some(operations.clone())).unwrap().operations, operations);
}

#[test]
fn substr_counts_characters() {
    assert_eq!(substr("héllo wörld", 1, 4), "éllo");
    assert_eq!(substr("héllo", 0, 1), "h");
    assert_eq!(substr("héllo", 1, 0), "é");
    assert_eq!(substr("héllo", 3, 100), "lo");
    assert_eq!(substr("héllo", 4, usize::MAX), "o");
    assert_eq!(substr("héllo", 5, 1), "");
    assert_eq!(substr("héllo", 9, 1), "");
    assert_eq!(substr("", 0, 1), "");
    assert_eq!(substr("🔧🔨", 1, 1), "🔨");
}

#[test]
fn substring_runs_to_the_end() {
    assert_eq!(substring("héllo", 0), "héllo");
    assert_eq!(substring("héllo", 2), "llo");
    assert_eq!(substring("héllo", 5), "");
    assert_eq!(substring("héllo", 6), "");
    assert_eq!(substring("Bye", 1), "ye");
}

#[test]
fn occurrences_are_replaced_from_the_left() {
    assert_eq!(replaced("Hello World! Hello Universe!", "Hello", "Hi"), ("Hi World! Hi Universe!".to_string(), 2));
    assert_eq!(replaced("aaaa", "aa", "b"), ("bb".to_string(), 2));
    assert_eq!(replaced("aaa", "aa", "b"), ("ba".to_string(), 1));
    assert_eq!(replaced("abc", "", "-"), ("-a-b-c-".to_string(), 4));
    assert_eq!(replaced("", "", "-"), ("-".to_string(), 1));
    assert_eq!(replaced("", "a", "-"), ("".to_string(), 0));
    assert_eq!(replaced("abc", "abcd", "-"), ("abc".to_string(), 0));
    assert_eq!(replaced("abc", "c", ""), ("ab".to_string(), 1));
    for (text, pattern, replacement) in
        [("a.b.c", ".", "::"), ("xxx", "x", "xx"), ("ab", "", "é"), ("ééé", "éé", "e")]
    {
        assert_eq!(
            replaced(text, pattern, replacement),
            (text.replace(pattern, replacement), text.matches(pattern).count())
        );
    }
}

#[test]
fn patterns_are_matched_in_place() {
    let text = chars("abcabc");
    assert!(matches_at(&text, &chars("abc"), 0));
    assert!(matches_at(&text, &chars("abc"), 3));
    assert!(!matches_at(&text, &chars("abc"), 1));
    assert!(!matches_at(&text, &chars("abc"), 4));
    assert!(matches_at(&text, &chars(""), 6));
    assert!(!matches_at(&text, &chars(""), 7));
    assert!(chars_eq(&text, &chars("abcabc")));
    assert!(!chars_eq(&text, &chars("abcabd")));
    assert!(!chars_eq(&text, &chars("abc")));
}

#[test]
fn text_converts_to_characters_and_back() {
    assert_eq!(chars_of("héllo 🔧"), chars("héllo 🔧"));
    assert_eq!(string_of(&chars("héllo 🔧")), "héllo 🔧");
    assert_eq!(string_of(&Vec::new()), "");
}

#[test]
fn objects_are_copied_in_depth() {
    let mut dict = Dictionary::new();
    dict.set(b"Kids".to_vec(), Object::Array(vec![Object::Reference((3, 0)), Object::Null]));
    let stream = Stream::new(dict.clone(), vec![1, 2]);
    let object = Object::Array(vec![
        Object::Boolean(true),
        Object::Integer(-7),
        Object::name("N"),
        Object::string_literal("s"),
        Object::Dictionary(dict),
        Object::Stream(stream),
    ]);
    let copy = object.clone();
    assert_eq!(copy, object);
    assert_eq!(object.as_array().unwrap().len(), 6);
    assert_eq!(object.as_i64(), Err(Error::ObjectType));
    assert_eq!(object.as_name(), Err(Error::ObjectType));
    assert_eq!(Object::Integer(4).as_i64(), Ok(4));
    assert_eq!(Object::name("F1").as_name(), Ok(&b"F1".to_vec()));
    assert_eq!(Object::Null.as_array(), Err(Error::ObjectType));
}

/// Reads names, integers, strings in parentheses and operators.
fn read_program(data: &[u8]) -> Option<Vec<Operation>> {
    let mut operations = Vec::new();
    let mut operands = Vec::new();
    let mut at = 0;
    while at < data.len() {
        let byte = data[at];
        if byte.is_ascii_whitespace() {
            at += 1;
        } else if byte == b'(' {
            let end = at + data[at..].iter().position(|b| *b == b')')?;
            let text = std::str::from_utf8(&data[at + 1..end]).ok()?;
            operands.push(Object::string_literal(text));
            at = end + 1;
        } else {
            let end = at
                + data[at..].iter().position(|b| b.is_ascii_whitespace()).unwrap_or(data.len() - at);
            let word = std::str::from_utf8(&data[at..end]).ok()?;
            if let Some(name) = word.strip_prefix('/') {
                operands.push(Object::name(name));
            } else if let Ok(number) = word.parse::<i64>() {
                operands.push(Object::Integer(number));
            } else {
                operations.push(Operation::new(word, std::mem::take(&mut operands)));
            }
            at = end;
        }
    }
    if operands.is_empty() {
        Some(operations)
    } else {
        None
    }
}

/// Writes what `read_program` reads.
fn write_program(operations: &Vec<Operation>) -> Vec<u8> {
    let mut out = Vec::new();
    for operation in operations {
        for operand in &operation.operands {
            match operand {
                Object::Name(name) => {
                    out.push(b'/');
                    out.extend(name);
                }
                Object::Integer(number) => out.extend(number.to_string().as_bytes()),
                Object::String(text, _) => {
                    out.push(b'(');
                    out.extend(text);
                    out.push(b')');
                }
                other => panic!("not written: {:?}", other),
            }
            out.push(b' ');
        }
        out.extend(operation.operator.as_bytes());
        out.push(b'\n');
    }
    out
}

fn modify_text() -> Result<bool, Error> {
    let mut doc = Document::new();
    doc.max_id = 3;
    let page = b"BT\n/F1 48 Tf\n100 600 Td\n(Hello World!) Tj\nET\n".to_vec();
    let id = doc.add_object(Object::Stream(Stream::new(Dictionary::new(), page)));
    assert_eq!(id, (4, 0));
    if let Some((_, Object::Stream(stream))) = doc.objects.iter_mut().find(|(id, _)| *id == (4, 0))
    {
        let mut content = stream.decode_content(read_program).unwrap();
        content.operations[3].operands[0] = Object::string_literal("Modified text!");
        stream.set_content(content.encode(write_program).unwrap());
    }
    match doc.get_object((4, 0))? {
        Object::Stream(stream) => {
            let expected = b"BT\n/F1 48 Tf\n100 600 Td\n(Modified text!) Tj\nET\n".to_vec();
            assert_eq!(stream.content, expected);
            assert_eq!(stream.dict.get(b"Length"), Ok(&Object::Integer(expected.len() as i64)));
        }
        other => panic!("not a stream: {:?}", other),
    }
    Ok(true)
}

#[test]
fn test_modify() {
    assert!(modify_text().unwrap());
}
