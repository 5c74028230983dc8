//! Text extraction: a single pass over a page's operations that follows the
//! active font and gathers the text that the page shows.

use vstd::prelude::*;
use vstd::string::*;
use crate::content::{operation_views, Operation, OperationView};
use crate::diagnostics::Warning;
use crate::encoding::{decoded, Encoding};
use crate::error::Error;
use crate::font::{find_encoding, font_errors, font_views, resolved_encoding, Font, FontView};
use crate::object::{lemma_array_view, object_views, Object, ObjectView, Real};
use crate::text::string_of;

verus! {

/// Whether a real number is -100 or less: a kerning adjustment wide enough
/// to stand for a gap between words.
pub open spec fn is_wide_gap(r: Real) -> bool {
    0xc2c8_0000 <= r.bits <= 0xff80_0000
}

/// The text that the first `n` of `items` show, and the error at which the
/// reading stopped, if it did.
///
/// A string shows what the encoding makes of its bytes; an array shows what
/// its items show, and then a space; a number of -100 or less shows a space;
/// anything else shows nothing. The first string that the encoding cannot
/// decode stops the reading: the text before it stands.
pub open spec fn collected(table: Seq<Option<char>>, items: Seq<ObjectView>, n: nat) -> (
    Seq<char>,
    Option<Error>,
)
    decreases items, n,
{
    if n == 0 || n > items.len() {
        (Seq::empty(), None)
    } else {
        let before = collected(table, items, (n - 1) as nat);
        if before.1 is Some {
            before
        } else {
            match items[n - 1] {
                ObjectView::String(bytes, _) => match decoded(table, bytes) {
                    Some(text) => (before.0 + text, None),
                    None => (before.0, Some(Error::CharacterEncoding)),
                },
                ObjectView::Array(inner) => {
                    let nested = collected(table, inner, inner.len());
                    if nested.1 is Some {
                        (before.0 + nested.0, nested.1)
                    } else {
                        (before.0 + nested.0.push(' '), None)
                    }
                },
                ObjectView::Integer(i) => if i <= -100 {
                    (before.0.push(' '), None)
                } else {
                    before
                },
                ObjectView::Real(r) => if is_wide_gap(r) {
                    (before.0.push(' '), None)
                } else {
                    before
                },
                _ => before,
            }
        }
    }
}

/// Appends to `text` what `operands` show. Where a string cannot be decoded,
/// the text shown before it stays appended and the error is returned.
pub fn collect_text(text: &mut Vec<char>, encoding: &Encoding, operands: &Vec<Object>) -> (res:
    Result<(), Error>)
    ensures
        ({
            let shown = collected(encoding@, object_views(operands@), operands@.len());
            &&& final(text)@ == old(text)@ + shown.0
            &&& res == match shown.1 {
                Some(e) => Err::<(), Error>(e),
                None => Ok::<(), Error>(()),
            }
        }),
    decreases operands,
{
    let ghost views = object_views(operands@);
    let mut i: usize = 0;
    assert(text@ =~= old(text)@ + Seq::<char>::empty());
    while i < operands.len()
        invariant
            i <= operands.len(),
            views == object_views(operands@),
            text@ == old(text)@ + collected(encoding@, views, i as nat).0,
            collected(encoding@, views, i as nat).1 is None,
        decreases operands.len() - i,
    {
        let ghost before = collected(encoding@, views, i as nat).0;
        assert(views[i as int] == operands@[i as int]@);
        match &operands[i] {
            Object::String(bytes, _) => {
                match encoding.decode_chars(bytes.as_slice()) {
                    Some(mut shown) => {
                        let ghost piece = shown@;
                        text.append(&mut shown);
                        assert(text@ =~= old(text)@ + (before + piece));
                    },
                    None => {
                        proof {
                            lemma_stopped(encoding@, views, (i + 1) as nat, operands@.len());
                        }
                        return Err(Error::CharacterEncoding);
                    },
                }
            },
            Object::Array(inner) => {
                proof {
                    lemma_array_view(*inner);
                    assert(decreases_to!(operands => operands@[i as int]));
                    assert(decreases_to!(operands@[i as int] => operands@[i as int]->Array_0));
                }
                let ghost nested = collected(encoding@, object_views(inner@), inner@.len());
                match collect_text(text, encoding, inner) {
                    Ok(()) => {
                        text.push(' ');
                        assert(text@ =~= old(text)@ + (before + nested.0.push(' ')));
                    },
                    Err(e) => {
                        proof {
                            assert(text@ =~= old(text)@ + (before + nested.0));
                            lemma_stopped(encoding@, views, (i + 1) as nat, operands@.len());
                        }
                        return Err(e);
                    },
                }
            },
            Object::Integer(gap) => {
                if *gap <= -100 {
                    text.push(' ');
                    assert(text@ =~= old(text)@ + before.push(' '));
                }
            },
            Object::Real(gap) => {
                if 0xc2c8_0000 <= gap.bits && gap.bits <= 0xff80_0000 {
                    text.push(' ');
                    assert(text@ =~= old(text)@ + before.push(' '));
                }
            },
            _ => {},
        }
        i += 1;
    }
    Ok(())
}

/// Once the reading has stopped, further items change nothing.
pub proof fn lemma_stopped(table: Seq<Option<char>>, items: Seq<ObjectView>, k: nat, n: nat)
    requires
        k <= n <= items.len(),
        collected(table, items, k).1 is Some,
    ensures
        collected(table, items, n) == collected(table, items, k),
    decreases n,
{
    if k < n {
        lemma_stopped(table, items, k, (n - 1) as nat);
    }
}

/// Where the pass over a page stands: the active encoding, the text
/// gathered since the last chunk, and the chunks and errors so far.
pub struct ExtractState {
    pub encoding: Option<Seq<Option<char>>>,
    pub text: Seq<char>,
    pub chunks: Seq<Result<Seq<char>, Error>>,
}

/// Whether the operator of `op` is the two characters `first` and `second`.
pub open spec fn is_operator(op: OperationView, first: char, second: char) -> bool {
    op.operator == seq![first, second]
}

/// The state with the gathered text, if there is any, closed as a chunk.
pub open spec fn flushed(state: ExtractState) -> ExtractState {
    if state.text.len() > 0 {
        ExtractState {
            encoding: state.encoding,
            text: Seq::empty(),
            chunks: state.chunks.push(Ok(state.text)),
        }
    } else {
        state
    }
}

/// The state before the first operation: no encoding, no text, and one
/// error for each font whose encoding did not resolve.
pub open spec fn initial_state(fonts: Seq<FontView>) -> ExtractState {
    ExtractState {
        encoding: None,
        text: Seq::empty(),
        chunks: Seq::new(
            font_errors(fonts, fonts.len()).len(),
            |i: int| Err(font_errors(fonts, fonts.len())[i]),
        ),
    }
}

/// The state after one more operation.
///
/// `Tf` selects the encoding of the font that its first operand names, or
/// none where no font serves that name; an operand that is no name is
/// recorded as an error. Text gathered so far is then closed as a chunk. A
/// `Tf` without operands ends the pass with `MissingFontOperand`.
/// `Tj` and `TJ` append what their operands show under the active encoding,
/// and record the error of a string that could not be decoded; without an
/// active encoding they show nothing.
/// `ET` ends the line: it appends a line break unless the text ends in one.
pub open spec fn extract_step(fonts: Seq<FontView>, state: ExtractState, op: OperationView)
    -> Result<ExtractState, Error> {
    if is_operator(op, 'T', 'f') {
        if op.operands.len() == 0 {
            Err(Error::MissingFontOperand)
        } else {
            match op.operands[0] {
                ObjectView::Name(name) => Ok(
                    flushed(
                        ExtractState {
                            encoding: resolved_encoding(fonts, name),
                            text: state.text,
                            chunks: state.chunks,
                        },
                    ),
                ),
                _ => Ok(
                    flushed(
                        ExtractState {
                            encoding: None,
                            text: state.text,
                            chunks: state.chunks.push(Err(Error::ObjectType)),
                        },
                    ),
                ),
            }
        }
    } else if is_operator(op, 'T', 'j') || is_operator(op, 'T', 'J') {
        match state.encoding {
            Some(table) => {
                let shown = collected(table, op.operands, op.operands.len());
                Ok(
                    ExtractState {
                        encoding: state.encoding,
                        text: state.text + shown.0,
                        chunks: match shown.1 {
                            Some(e) => state.chunks.push(Err(e)),
                            None => state.chunks,
                        },
                    },
                )
            },
            None => Ok(state),
        }
    } else if is_operator(op, 'E', 'T') {
        if state.text.len() > 0 && state.text.last() == '\n' {
            Ok(state)
        } else {
            Ok(
                ExtractState {
                    encoding: state.encoding,
                    text: state.text.push('\n'),
                    chunks: state.chunks,
                },
            )
        }
    } else {
        Ok(state)
    }
}

/// The state after the first `n` operations, or the error that ended the pass.
pub open spec fn extract_run(fonts: Seq<FontView>, ops: Seq<OperationView>, n: nat) -> Result<
    ExtractState,
    Error,
>
    decreases n,
{
    if n == 0 || n > ops.len() {
        Ok(initial_state(fonts))
    } else {
        match extract_run(fonts, ops, (n - 1) as nat) {
            Ok(state) => extract_step(fonts, state, ops[n - 1]),
            Err(e) => Err(e),
        }
    }
}

/// The chunks of a page: what the pass over all its operations has closed,
/// and the text gathered at the end as a last chunk.
pub open spec fn page_chunks(fonts: Seq<FontView>, ops: Seq<OperationView>) -> Result<
    Seq<Result<Seq<char>, Error>>,
    Error,
> {
    match extract_run(fonts, ops, ops.len()) {
        Ok(state) => Ok(flushed(state).chunks),
        Err(e) => Err(e),
    }
}

/// The values of a sequence of chunks.
pub open spec fn chunk_views(chunks: Seq<Result<String, Error>>) -> Seq<Result<Seq<char>, Error>> {
    Seq::new(
        chunks.len(),
        |i: int|
            match chunks[i] {
                Ok(text) => Ok(text@),
                Err(e) => Err(e),
            },
    )
}

/// The table of the active encoding.
pub open spec fn table_of(encoding: Option<&Encoding>) -> Option<Seq<Option<char>>> {
    match encoding {
        Some(encoding) => Some(encoding@),
        None => None,
    }
}

/// Whether the operator of `operation` is the two characters `first` and `second`.
pub fn operator_is(operation: &Operation, first: char, second: char) -> (res: bool)
    ensures
        res == is_operator(operation@, first, second),
{
    let name = operation.operator.as_str();
    if name.unicode_len() != 2 {
        return false;
    }
    let same = name.get_char(0) == first && name.get_char(1) == second;
    assert(same == (name@ =~= seq![first, second]));
    same
}

/// Appends `chunk` to `chunks`.
fn push_chunk(chunks: &mut Vec<Result<String, Error>>, chunk: Result<String, Error>)
    ensures
        chunk_views(final(chunks)@) == chunk_views(old(chunks)@).push(
            match chunk {
                Ok(text) => Ok(text@),
                Err(e) => Err(e),
            },
        ),
{
    chunks.push(chunk);
    assert(chunk_views(chunks@) =~= chunk_views(old(chunks)@).push(
        match chunk {
            Ok(text) => Ok(text@),
            Err(e) => Err(e),
        },
    ));
}

/// Whether the operation at place `i` shows text that is dropped: the pass
/// reaches it with no encoding active, and it is a `Tj` or a `TJ`.
pub open spec fn drops_text(fonts: Seq<FontView>, ops: Seq<OperationView>, i: int) -> bool {
    &&& 0 <= i < ops.len()
    &&& is_operator(ops[i], 'T', 'j') || is_operator(ops[i], 'T', 'J')
    &&& extract_run(fonts, ops, i as nat) matches Ok(state) && state.encoding is None
}

/// The warnings of the pass over the first `n` operations: one for each
/// operation whose text was dropped, in order.
pub open spec fn extraction_warnings(fonts: Seq<FontView>, ops: Seq<OperationView>, n: nat) -> Seq<
    Warning,
>
    decreases n,
{
    if n == 0 || n > ops.len() {
        Seq::empty()
    } else {
        let before = extraction_warnings(fonts, ops, (n - 1) as nat);
        if drops_text(fonts, ops, n - 1) {
            before.push(Warning::TextWithoutEncoding((n - 1) as usize))
        } else {
            before
        }
    }
}

/// Once the pass has ended with an error, no further text is dropped.
pub proof fn lemma_no_warnings_after_failure(
    fonts: Seq<FontView>,
    ops: Seq<OperationView>,
    k: nat,
    n: nat,
)
    requires
        k <= n <= ops.len(),
        extract_run(fonts, ops, k) is Err,
    ensures
        extraction_warnings(fonts, ops, n) == extraction_warnings(fonts, ops, k),
    decreases n,
{
    if k < n {
        lemma_no_warnings_after_failure(fonts, ops, k, (n - 1) as nat);
        lemma_run_failed(fonts, ops, k, (n - 1) as nat);
    }
}

/// Extracts the text chunks of one page from its operations and fonts.
pub fn extract_text_chunks_from_operations(fonts: &Vec<Font>, operations: &Vec<Operation>) -> (res:
    Result<Vec<Result<String, Error>>, Error>)
    ensures
        match res {
            Ok(chunks) => page_chunks(font_views(fonts@), operation_views(operations@)) == Ok::<
                Seq<Result<Seq<char>, Error>>,
                Error,
            >(chunk_views(chunks@)),
            Err(e) => page_chunks(font_views(fonts@), operation_views(operations@)) == Err::<
                Seq<Result<Seq<char>, Error>>,
                Error,
            >(e),
        },
{
    extract_text_chunks_with_warnings(fonts, operations).0
}

/// Extracts the text chunks of one page from its operations and fonts, and
/// returns with them what was passed over: each text-showing operation
/// whose text was dropped because no encoding was active. The warnings are
/// returned also where the pass ends with an error.
pub fn extract_text_chunks_with_warnings(fonts: &Vec<Font>, operations: &Vec<Operation>) -> (res: (
    Result<Vec<Result<String, Error>>, Error>,
    Vec<Warning>,
))
    ensures
        match res.0 {
            Ok(chunks) => page_chunks(font_views(fonts@), operation_views(operations@)) == Ok::<
                Seq<Result<Seq<char>, Error>>,
                Error,
            >(chunk_views(chunks@)),
            Err(e) => page_chunks(font_views(fonts@), operation_views(operations@)) == Err::<
                Seq<Result<Seq<char>, Error>>,
                Error,
            >(e),
        },
        res.1@ == extraction_warnings(
            font_views(fonts@),
            operation_views(operations@),
            operations@.len(),
        ),
{
    let ghost fviews = font_views(fonts@);
    let ghost oviews = operation_views(operations@);
    let mut chunks: Vec<Result<String, Error>> = Vec::new();
    let mut f: usize = 0;
    assert(chunk_views(chunks@) =~= Seq::new(
        font_errors(fviews, 0).len(),
        |i: int| Err(font_errors(fviews, 0)[i]),
    ));
    while f < fonts.len()
        invariant
            f <= fonts.len(),
            fviews == font_views(fonts@),
            chunk_views(chunks@) == Seq::new(
                font_errors(fviews, f as nat).len(),
                |i: int| Err::<Seq<char>, Error>(font_errors(fviews, f as nat)[i]),
            ),
        decreases fonts.len() - f,
    {
        match &fonts[f].encoding {
            Ok(_) => {},
            Err(e) => {
                push_chunk(&mut chunks, Err(*e));
            },
        }
        f += 1;
        assert(chunk_views(chunks@) =~= Seq::new(
            font_errors(fviews, f as nat).len(),
            |i: int| Err::<Seq<char>, Error>(font_errors(fviews, f as nat)[i]),
        ));
    }
    let mut current_encoding: Option<&Encoding> = None;
    let mut current_text: Vec<char> = Vec::new();
    let mut warnings: Vec<Warning> = Vec::new();
    let mut i: usize = 0;
    while i < operations.len()
        invariant
            i <= operations.len(),
            fviews == font_views(fonts@),
            oviews == operation_views(operations@),
            warnings@ == extraction_warnings(fviews, oviews, i as nat),
            extract_run(fviews, oviews, i as nat) == Ok::<ExtractState, Error>(
                ExtractState {
                    encoding: table_of(current_encoding),
                    text: current_text@,
                    chunks: chunk_views(chunks@),
                },
            ),
        decreases operations.len() - i,
    {
        let operation = &operations[i];
        assert(oviews[i as int] == operation@);
        if operator_is(operation, 'T', 'f') {
            if operation.operands.len() == 0 {
                proof {
                    lemma_run_failed(fviews, oviews, (i + 1) as nat, operations@.len());
                    lemma_no_warnings_after_failure(
                        fviews,
                        oviews,
                        (i + 1) as nat,
                        operations@.len(),
                    );
                    lemma_set_font_shows_no_text(operation@);
                }
                return (Err(Error::MissingFontOperand), warnings);
            }
            assert(operation@.operands[0] == operation.operands@[0]@);
            proof {
                lemma_set_font_shows_no_text(operation@);
            }
            match operation.operands[0].as_name() {
                Ok(name) => {
                    current_encoding = find_encoding(fonts, name.as_slice());
                },
                Err(e) => {
                    push_chunk(&mut chunks, Err(e));
                    current_encoding = None;
                },
            }
            if current_text.len() > 0 {
                push_chunk(&mut chunks, Ok(string_of(&current_text)));
                current_text = Vec::new();
            }
        } else if operator_is(operation, 'T', 'j') || operator_is(operation, 'T', 'J') {
            match current_encoding {
                Some(encoding) => {
                    match collect_text(&mut current_text, encoding, &operation.operands) {
                        Ok(()) => {},
                        Err(e) => {
                            push_chunk(&mut chunks, Err(e));
                        },
                    }
                },
                None => {
                    warnings.push(Warning::TextWithoutEncoding(i));
                },
            }
        } else if operator_is(operation, 'E', 'T') {
            let n = current_text.len();
            if n == 0 || current_text[n - 1] != '\n' {
                current_text.push('\n');
            }
        }
        i += 1;
    }
    if current_text.len() > 0 {
        push_chunk(&mut chunks, Ok(string_of(&current_text)));
    }
    (Ok(chunks), warnings)
}

/// A `Tf` is neither a `Tj` nor a `TJ`.
pub proof fn lemma_set_font_shows_no_text(op: OperationView)
    requires
        is_operator(op, 'T', 'f'),
    ensures
        !is_operator(op, 'T', 'j'),
        !is_operator(op, 'T', 'J'),
{
    assert(seq!['T', 'f'][1] != seq!['T', 'j'][1]);
    assert(seq!['T', 'f'][1] != seq!['T', 'J'][1]);
}

/// Once the pass has ended with an error, further operations change nothing.
pub proof fn lemma_run_failed(fonts: Seq<FontView>, ops: Seq<OperationView>, k: nat, n: nat)
    requires
        k <= n <= ops.len(),
        extract_run(fonts, ops, k) is Err,
    ensures
        extract_run(fonts, ops, n) == extract_run(fonts, ops, k),
    decreases n,
{
    if k < n {
        lemma_run_failed(fonts, ops, k, (n - 1) as nat);
    }
}

} // verus!
