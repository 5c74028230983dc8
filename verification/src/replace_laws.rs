//! What holds of every replacing pass: it changes the text of strings and
//! leaves the structure of the page program as it was.

use vstd::prelude::*;
use crate::content::OperationView;
use crate::extract::is_operator;
use crate::font::FontView;
use crate::object::ObjectView;
use crate::replace::{replace_run, replaced_page, Mode, ReplaceState};
use crate::substitute::{partial_array, partial_operands, replaced_exact};

verus! {

/// Whether an operand kept its shape: a string is still a string of the
/// same format, an array is still an array of the same length in which
/// every item that was no string is as it was, and anything else is as it
/// was.
pub open spec fn same_shape(before: ObjectView, after: ObjectView) -> bool {
    match before {
        ObjectView::String(_, format) => after matches ObjectView::String(_, kept) && kept
            == format,
        ObjectView::Array(items) => after matches ObjectView::Array(changed) && changed.len()
            == items.len() && forall|k: int|
            0 <= k < items.len() ==> #[trigger] items[k] is String || changed[k] == items[k],
        _ => after == before,
    }
}

/// Whether an operation kept its structure: the operator and the number of
/// operands are as they were, every operand kept its shape, and an
/// operation that shows no text is as it was.
pub open spec fn same_structure(before: OperationView, after: OperationView) -> bool {
    &&& after.operator == before.operator
    &&& after.operands.len() == before.operands.len()
    &&& forall|j: int|
        0 <= j < before.operands.len() ==> same_shape(#[trigger] before.operands[j], after.operands[j])
    &&& !(is_operator(before, 'T', 'j') || is_operator(before, 'T', 'J')) ==> after == before
}

/// Exact replacement keeps the shape of every operand.
pub proof fn lemma_exact_keeps_shape(
    table: Seq<Option<char>>,
    operands: Seq<ObjectView>,
    target: Seq<char>,
    replacement: Seq<char>,
    default: Seq<char>,
    n: nat,
)
    requires
        n <= operands.len(),
    ensures
        replaced_exact(table, operands, target, replacement, default, n).0.len() == operands.len(),
        forall|j: int|
            0 <= j < operands.len() ==> same_shape(
                #[trigger] operands[j],
                replaced_exact(table, operands, target, replacement, default, n).0[j],
            ),
        forall|j: int|
            n <= j < operands.len() ==> replaced_exact(
                table,
                operands,
                target,
                replacement,
                default,
                n,
            ).0[j] == operands[j],
    decreases n,
{
    if n > 0 {
        lemma_exact_keeps_shape(table, operands, target, replacement, default, (n - 1) as nat);
    }
}

/// Partial replacement in an array changes strings only.
pub proof fn lemma_partial_array_keeps_items(
    table: Seq<Option<char>>,
    items: Seq<ObjectView>,
    search: Seq<char>,
    replacement: Seq<char>,
    default: Seq<char>,
    n: nat,
)
    requires
        n <= items.len(),
    ensures
        partial_array(table, items, search, replacement, default, n).0.len() == items.len(),
        forall|k: int|
            0 <= k < items.len() ==> #[trigger] items[k] is String || partial_array(
                table,
                items,
                search,
                replacement,
                default,
                n,
            ).0[k] == items[k],
        forall|k: int|
            n <= k < items.len() ==> partial_array(table, items, search, replacement, default, n).0[k]
                == items[k],
    decreases n,
{
    if n > 0 {
        lemma_partial_array_keeps_items(table, items, search, replacement, default, (n - 1) as nat);
    }
}

/// Partial replacement keeps the shape of every operand.
pub proof fn lemma_partial_keeps_shape(
    table: Seq<Option<char>>,
    operands: Seq<ObjectView>,
    search: Seq<char>,
    replacement: Seq<char>,
    default: Seq<char>,
    n: nat,
)
    requires
        n <= operands.len(),
    ensures
        partial_operands(table, operands, search, replacement, default, n).0.len()
            == operands.len(),
        forall|j: int|
            0 <= j < operands.len() ==> same_shape(
                #[trigger] operands[j],
                partial_operands(table, operands, search, replacement, default, n).0[j],
            ),
        forall|j: int|
            n <= j < operands.len() ==> partial_operands(
                table,
                operands,
                search,
                replacement,
                default,
                n,
            ).0[j] == operands[j],
    decreases n,
{
    if n > 0 {
        lemma_partial_keeps_shape(table, operands, search, replacement, default, (n - 1) as nat);
        match operands[n - 1] {
            ObjectView::Array(items) => {
                lemma_partial_array_keeps_items(
                    table,
                    items,
                    search,
                    replacement,
                    default,
                    items.len(),
                );
            },
            _ => {},
        }
    }
}

/// A replacing pass keeps the structure of the page program: as many
/// operations as before, each with its operator and its number of
/// operands, every operand in its shape, and every operation that shows no
/// text as it was.
pub proof fn lemma_replacement_keeps_structure(
    mode: Mode,
    fonts: Seq<FontView>,
    ops: Seq<OperationView>,
    search: Seq<char>,
    replacement: Seq<char>,
    default: Seq<char>,
    n: nat,
)
    requires
        n <= ops.len(),
        replace_run(mode, fonts, ops, search, replacement, default, n) is Ok,
    ensures
        ({
            let done = replace_run(mode, fonts, ops, search, replacement, default, n)->Ok_0.done;
            &&& done.len() == n
            &&& forall|i: int| 0 <= i < n ==> same_structure(#[trigger] ops[i], done[i])
        }),
    decreases n,
{
    if n > 0 {
        lemma_replacement_keeps_structure(
            mode,
            fonts,
            ops,
            search,
            replacement,
            default,
            (n - 1) as nat,
        );
        let op = ops[n - 1];
        lemma_exact_keeps_shape(
            table_or_empty(
                replace_run(mode, fonts, ops, search, replacement, default, (n - 1) as nat)->Ok_0,
            ),
            op.operands,
            search,
            replacement,
            default,
            op.operands.len(),
        );
        lemma_partial_keeps_shape(
            table_or_empty(
                replace_run(mode, fonts, ops, search, replacement, default, (n - 1) as nat)->Ok_0,
            ),
            op.operands,
            search,
            replacement,
            default,
            op.operands.len(),
        );
    }
}

/// The table of the active encoding, or a table without entries.
pub open spec fn table_or_empty(state: ReplaceState) -> Seq<Option<char>> {
    match state.encoding {
        Some(table) => table,
        None => Seq::empty(),
    }
}

/// A page after a replacing pass has the structure that it had before.
pub proof fn lemma_replaced_page_keeps_structure(
    mode: Mode,
    fonts: Seq<FontView>,
    ops: Seq<OperationView>,
    search: Seq<char>,
    replacement: Seq<char>,
    default: Seq<char>,
)
    requires
        replaced_page(mode, fonts, ops, search, replacement, default) is Ok,
    ensures
        ({
            let done = replaced_page(mode, fonts, ops, search, replacement, default)->Ok_0.0;
            &&& done.len() == ops.len()
            &&& forall|i: int| 0 <= i < ops.len() ==> same_structure(#[trigger] ops[i], done[i])
        }),
{
    lemma_replacement_keeps_structure(mode, fonts, ops, search, replacement, default, ops.len());
}

} // verus!
