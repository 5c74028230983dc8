//! Text substitution over a page's operations: a pass that follows the
//! active font and replaces text in every text-showing operation.

use vstd::prelude::*;
use vstd::string::*;
use crate::content::{operation_views, Operation, OperationView};
use crate::diagnostics::Warning;
use crate::encoding::Encoding;
use crate::error::Error;
use crate::extract::{is_operator, lemma_set_font_shows_no_text, operator_is, table_of};
use crate::font::{find_encoding, font_views, resolved_encoding, Font, FontView};
use crate::object::ObjectView;
use crate::search::clamped;
use crate::substitute::{
    partial_operands, replace_partial_in_operation, replaced_exact, try_to_replace_encoded_text,
    with_operands,
};

verus! {

/// Where a replacing pass stands: the active encoding, the operations
/// passed so far as they now are, and the occurrences replaced.
pub struct ReplaceState {
    pub encoding: Option<Seq<Option<char>>>,
    pub done: Seq<OperationView>,
    pub count: nat,
}

/// Which replacement a pass makes.
#[derive(Clone, Copy, Debug, PartialEq, Eq, Structural)]
pub enum Mode {
    /// Operands that show exactly the text are replaced as a whole.
    Exact,
    /// Every occurrence of the text within a string is replaced.
    Partial,
}

/// The encoding that a `Tf` operation selects: that of the font which its
/// first operand names, or none where no font serves the name. No operand
/// at all is `MissingFontOperand`, an operand that is no name `ObjectType`.
pub open spec fn selected_encoding(fonts: Seq<FontView>, op: OperationView) -> Result<
    Option<Seq<Option<char>>>,
    Error,
> {
    if op.operands.len() == 0 {
        Err(Error::MissingFontOperand)
    } else {
        match op.operands[0] {
            ObjectView::Name(name) => Ok(resolved_encoding(fonts, name)),
            _ => Err(Error::ObjectType),
        }
    }
}

/// One text-showing operation after replacement under `table`, with the
/// occurrences replaced: in exact mode none are counted.
pub open spec fn replaced_operation(
    mode: Mode,
    table: Seq<Option<char>>,
    op: OperationView,
    search: Seq<char>,
    replacement: Seq<char>,
    default: Seq<char>,
) -> Result<(OperationView, nat), Error> {
    match mode {
        Mode::Exact => {
            let out = replaced_exact(
                table,
                op.operands,
                search,
                replacement,
                default,
                op.operands.len(),
            );
            match out.1 {
                Some(e) => Err(e),
                None => Ok((with_operands(op, out.0), 0)),
            }
        },
        Mode::Partial => {
            let out = partial_operands(
                table,
                op.operands,
                search,
                replacement,
                default,
                op.operands.len(),
            );
            match out.2 {
                Some(e) => Err(e),
                None => Ok((with_operands(op, out.0), out.1)),
            }
        },
    }
}

/// The state after one more operation.
///
/// `Tf` selects the encoding. `Tj` and `TJ` have their text replaced under
/// the active encoding, and stay as they are without one. Every other
/// operation stays as it is. An error ends the pass.
pub open spec fn replace_step(
    mode: Mode,
    fonts: Seq<FontView>,
    state: ReplaceState,
    op: OperationView,
    search: Seq<char>,
    replacement: Seq<char>,
    default: Seq<char>,
) -> Result<ReplaceState, Error> {
    if is_operator(op, 'T', 'f') {
        match selected_encoding(fonts, op) {
            Ok(encoding) => Ok(
                ReplaceState { encoding, done: state.done.push(op), count: state.count },
            ),
            Err(e) => Err(e),
        }
    } else if is_operator(op, 'T', 'j') || is_operator(op, 'T', 'J') {
        match state.encoding {
            Some(table) => match replaced_operation(mode, table, op, search, replacement, default) {
                Ok((changed, more)) => Ok(
                    ReplaceState {
                        encoding: state.encoding,
                        done: state.done.push(changed),
                        count: state.count + more,
                    },
                ),
                Err(e) => Err(e),
            },
            None => Ok(
                ReplaceState {
                    encoding: state.encoding,
                    done: state.done.push(op),
                    count: state.count,
                },
            ),
        }
    } else {
        Ok(ReplaceState { encoding: state.encoding, done: state.done.push(op), count: state.count })
    }
}

/// The state after the first `n` operations, or the error that ended the pass.
pub open spec fn replace_run(
    mode: Mode,
    fonts: Seq<FontView>,
    ops: Seq<OperationView>,
    search: Seq<char>,
    replacement: Seq<char>,
    default: Seq<char>,
    n: nat,
) -> Result<ReplaceState, Error>
    decreases n,
{
    if n == 0 || n > ops.len() {
        Ok(ReplaceState { encoding: None, done: Seq::empty(), count: 0 })
    } else {
        match replace_run(mode, fonts, ops, search, replacement, default, (n - 1) as nat) {
            Ok(state) => replace_step(mode, fonts, state, ops[n - 1], search, replacement, default),
            Err(e) => Err(e),
        }
    }
}

/// A page's operations after a replacing pass, with the occurrences replaced.
pub open spec fn replaced_page(
    mode: Mode,
    fonts: Seq<FontView>,
    ops: Seq<OperationView>,
    search: Seq<char>,
    replacement: Seq<char>,
    default: Seq<char>,
) -> Result<(Seq<OperationView>, nat), Error> {
    match replace_run(mode, fonts, ops, search, replacement, default, ops.len()) {
        Ok(state) => Ok((state.done, state.count)),
        Err(e) => Err(e),
    }
}

/// Once a pass has ended with an error, further operations change nothing.
pub proof fn lemma_replace_failed(
    mode: Mode,
    fonts: Seq<FontView>,
    ops: Seq<OperationView>,
    search: Seq<char>,
    replacement: Seq<char>,
    default: Seq<char>,
    k: nat,
    n: nat,
)
    requires
        k <= n <= ops.len(),
        replace_run(mode, fonts, ops, search, replacement, default, k) is Err,
    ensures
        replace_run(mode, fonts, ops, search, replacement, default, n) == replace_run(
            mode,
            fonts,
            ops,
            search,
            replacement,
            default,
            k,
        ),
    decreases n,
{
    if k < n {
        lemma_replace_failed(mode, fonts, ops, search, replacement, default, k, (n - 1) as nat);
    }
}

/// The encoding that a `Tf` operation selects among `fonts`.
pub fn select_encoding<'a>(fonts: &'a Vec<Font>, operation: &Operation) -> (res: Result<
    Option<&'a Encoding>,
    Error,
>)
    ensures
        match res {
            Ok(encoding) => selected_encoding(font_views(fonts@), operation@) == Ok::<
                Option<Seq<Option<char>>>,
                Error,
            >(table_of(encoding)),
            Err(e) => selected_encoding(font_views(fonts@), operation@) == Err::<
                Option<Seq<Option<char>>>,
                Error,
            >(e),
        },
{
    if operation.operands.len() == 0 {
        return Err(Error::MissingFontOperand);
    }
    assert(operation@.operands[0] == operation.operands@[0]@);
    match operation.operands[0].as_name() {
        Ok(name) => Ok(find_encoding(fonts, name.as_slice())),
        Err(e) => Err(e),
    }
}

/// Replaces text in one text-showing operation under `encoding`.
fn replace_in_operation(
    mode: Mode,
    operation: &mut Operation,
    encoding: &Encoding,
    search: &str,
    replacement: &str,
    default: &str,
) -> (res: Result<usize, Error>)
    ensures
        ({
            match replaced_operation(
                mode,
                encoding@,
                old(operation)@,
                search@,
                replacement@,
                default@,
            ) {
                Ok((changed, more)) => final(operation)@ == changed && res == Ok::<usize, Error>(
                    clamped(more),
                ),
                Err(e) => res == Err::<usize, Error>(e),
            }
        }),
{
    match mode {
        Mode::Exact => match try_to_replace_encoded_text(
            operation,
            encoding,
            search,
            replacement,
            default,
        ) {
            Ok(()) => Ok(0),
            Err(e) => Err(e),
        },
        Mode::Partial => replace_partial_in_operation(
            operation,
            encoding,
            search,
            replacement,
            default,
        ),
    }
}

/// The warnings for the first `n` fonts: one for each font whose encoding
/// did not resolve, in order.
pub open spec fn unresolved_fonts(fonts: Seq<FontView>, n: nat) -> Seq<Warning>
    decreases n,
{
    if n == 0 || n > fonts.len() {
        Seq::empty()
    } else {
        let before = unresolved_fonts(fonts, (n - 1) as nat);
        if fonts[n - 1].encoding is Err {
            before.push(Warning::UnresolvedFont((n - 1) as usize))
        } else {
            before
        }
    }
}

/// Whether the operation at place `i` is passed without replacement for
/// want of an encoding: the pass reaches it with no encoding active, and it
/// is a `Tj` or a `TJ`.
pub open spec fn skips_text(
    mode: Mode,
    fonts: Seq<FontView>,
    ops: Seq<OperationView>,
    search: Seq<char>,
    replacement: Seq<char>,
    default: Seq<char>,
    i: int,
) -> bool {
    &&& 0 <= i < ops.len()
    &&& is_operator(ops[i], 'T', 'j') || is_operator(ops[i], 'T', 'J')
    &&& replace_run(mode, fonts, ops, search, replacement, default, i as nat) matches Ok(state)
        && state.encoding is None
}

/// The warnings of the pass over the first `n` operations: one for each
/// text-showing operation that was passed for want of an encoding, in order.
pub open spec fn skipped_text(
    mode: Mode,
    fonts: Seq<FontView>,
    ops: Seq<OperationView>,
    search: Seq<char>,
    replacement: Seq<char>,
    default: Seq<char>,
    n: nat,
) -> Seq<Warning>
    decreases n,
{
    if n == 0 || n > ops.len() {
        Seq::empty()
    } else {
        let before = skipped_text(mode, fonts, ops, search, replacement, default, (n - 1) as nat);
        if skips_text(mode, fonts, ops, search, replacement, default, n - 1) {
            before.push(Warning::TextWithoutEncoding((n - 1) as usize))
        } else {
            before
        }
    }
}

/// The warnings of a replacing pass over a page: the fonts whose encoding
/// did not resolve, and then the text-showing operations that were passed
/// for want of an encoding.
pub open spec fn replace_warnings(
    mode: Mode,
    fonts: Seq<FontView>,
    ops: Seq<OperationView>,
    search: Seq<char>,
    replacement: Seq<char>,
    default: Seq<char>,
) -> Seq<Warning> {
    unresolved_fonts(fonts, fonts.len()) + skipped_text(
        mode,
        fonts,
        ops,
        search,
        replacement,
        default,
        ops.len(),
    )
}

/// Once a pass has ended with an error, no further operation is passed.
pub proof fn lemma_nothing_skipped_after_failure(
    mode: Mode,
    fonts: Seq<FontView>,
    ops: Seq<OperationView>,
    search: Seq<char>,
    replacement: Seq<char>,
    default: Seq<char>,
    k: nat,
    n: nat,
)
    requires
        k <= n <= ops.len(),
        replace_run(mode, fonts, ops, search, replacement, default, k) is Err,
    ensures
        skipped_text(mode, fonts, ops, search, replacement, default, n) == skipped_text(
            mode,
            fonts,
            ops,
            search,
            replacement,
            default,
            k,
        ),
    decreases n,
{
    if k < n {
        lemma_nothing_skipped_after_failure(
            mode,
            fonts,
            ops,
            search,
            replacement,
            default,
            k,
            (n - 1) as nat,
        );
        lemma_replace_failed(mode, fonts, ops, search, replacement, default, k, (n - 1) as nat);
    }
}

/// The warnings for the fonts whose encoding did not resolve.
pub fn warn_of_fonts(fonts: &Vec<Font>) -> (res: Vec<Warning>)
    ensures
        res@ == unresolved_fonts(font_views(fonts@), fonts@.len()),
{
    let mut out: Vec<Warning> = Vec::new();
    let mut i: usize = 0;
    while i < fonts.len()
        invariant
            i <= fonts.len(),
            out@ == unresolved_fonts(font_views(fonts@), i as nat),
        decreases fonts.len() - i,
    {
        if fonts[i].encoding.is_err() {
            out.push(Warning::UnresolvedFont(i));
        }
        i += 1;
    }
    out
}

/// A replacing pass over the operations of a page: returns the operations
/// as they stand after it and the occurrences replaced, as far as the
/// machine can count. In exact mode no occurrences are counted.
pub fn replace_in_operations(
    mode: Mode,
    fonts: &Vec<Font>,
    operations: Vec<Operation>,
    search: &str,
    replacement: &str,
    default: &str,
) -> (res: Result<(Vec<Operation>, usize), Error>)
    ensures
        ({
            match replaced_page(
                mode,
                font_views(fonts@),
                operation_views(operations@),
                search@,
                replacement@,
                default@,
            ) {
                Ok((done, count)) => res matches Ok((changed, counted)) && operation_views(changed@)
                    == done && counted == clamped(count),
                Err(e) => res matches Err(f) && f == e,
            }
        }),
{
    replace_in_operations_with_warnings(mode, fonts, operations, search, replacement, default).0
}

/// A replacing pass as [`replace_in_operations`] makes it, which returns
/// with the result what was passed over: each font whose encoding did not
/// resolve, and each text-showing operation that was left as it is because
/// no encoding was active. The warnings are returned also where the pass
/// ends with an error.
pub fn replace_in_operations_with_warnings(
    mode: Mode,
    fonts: &Vec<Font>,
    operations: Vec<Operation>,
    search: &str,
    replacement: &str,
    default: &str,
) -> (res: (Result<(Vec<Operation>, usize), Error>, Vec<Warning>))
    ensures
        ({
            match replaced_page(
                mode,
                font_views(fonts@),
                operation_views(operations@),
                search@,
                replacement@,
                default@,
            ) {
                Ok((done, count)) => res.0 matches Ok((changed, counted)) && operation_views(
                    changed@,
                ) == done && counted == clamped(count),
                Err(e) => res.0 matches Err(f) && f == e,
            }
        }),
        res.1@ == replace_warnings(
            mode,
            font_views(fonts@),
            operation_views(operations@),
            search@,
            replacement@,
            default@,
        ),
{
    let ghost fviews = font_views(fonts@);
    let ghost ops = operation_views(operations@);
    let ghost all = operations@;
    let mut done: Vec<Operation> = Vec::new();
    let mut count: usize = 0;
    let mut current_encoding: Option<&Encoding> = None;
    let mut warnings = warn_of_fonts(fonts);
    let ghost of_fonts = warnings@;
    let mut place: usize = 0;
    assert(operations.len() == all.len());
    assert(operation_views(done@) =~= Seq::<OperationView>::empty());
    assert(warnings@ =~= of_fonts + Seq::<Warning>::empty());
    for operation in it: operations
        invariant
            it.seq() == all,
            ops == operation_views(all),
            fviews == font_views(fonts@),
            all.len() <= usize::MAX,
            place == it.index(),
            of_fonts == unresolved_fonts(fviews, fviews.len()),
            warnings@ == of_fonts + skipped_text(
                mode,
                fviews,
                ops,
                search@,
                replacement@,
                default@,
                it.index() as nat,
            ),
            replace_run(mode, fviews, ops, search@, replacement@, default@, it.index() as nat)
                matches Ok(state) && state.encoding == table_of(current_encoding) && state.done
                == operation_views(done@) && count == clamped(state.count),
    {
        let ghost k = it.index();
        let ghost before = operation_views(done@);
        assert(ops[k] == operation@);
        let mut operation = operation;
        if operator_is(&operation, 'T', 'f') {
            proof {
                lemma_set_font_shows_no_text(operation@);
            }
            match select_encoding(fonts, &operation) {
                Ok(encoding) => {
                    current_encoding = encoding;
                },
                Err(e) => {
                    proof {
                        lemma_replace_failed(
                            mode,
                            fviews,
                            ops,
                            search@,
                            replacement@,
                            default@,
                            (k + 1) as nat,
                            ops.len(),
                        );
                        lemma_nothing_skipped_after_failure(
                            mode,
                            fviews,
                            ops,
                            search@,
                            replacement@,
                            default@,
                            (k + 1) as nat,
                            ops.len(),
                        );
                        lemma_set_font_shows_no_text(operation@);
                    }
                    return (Err(e), warnings);
                },
            }
        } else if operator_is(&operation, 'T', 'j') || operator_is(&operation, 'T', 'J') {
            match current_encoding {
                Some(encoding) => {
                    match replace_in_operation(
                        mode,
                        &mut operation,
                        encoding,
                        search,
                        replacement,
                        default,
                    ) {
                        Ok(more) => {
                            count = if more <= usize::MAX - count {
                                count + more
                            } else {
                                usize::MAX
                            };
                        },
                        Err(e) => {
                            proof {
                                lemma_replace_failed(
                                    mode,
                                    fviews,
                                    ops,
                                    search@,
                                    replacement@,
                                    default@,
                                    (k + 1) as nat,
                                    ops.len(),
                                );
                                lemma_nothing_skipped_after_failure(
                                    mode,
                                    fviews,
                                    ops,
                                    search@,
                                    replacement@,
                                    default@,
                                    (k + 1) as nat,
                                    ops.len(),
                                );
                            }
                            return (Err(e), warnings);
                        },
                    }
                },
                None => {
                    let ghost skipped = warnings@;
                    warnings.push(Warning::TextWithoutEncoding(place));
                    assert(warnings@ =~= of_fonts + skipped_text(
                        mode,
                        fviews,
                        ops,
                        search@,
                        replacement@,
                        default@,
                        k as nat,
                    ).push(Warning::TextWithoutEncoding(place)));
                },
            }
        }
        done.push(operation);
        place += 1;
        assert(operation_views(done@) =~= before.push(operation@));
    }
    (Ok((done, count)), warnings)
}

} // verus!
