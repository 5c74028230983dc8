//! Text substitution in the operands of one text-showing operation: whole
//! strings in exact mode, every occurrence within a string in partial mode.

use vstd::prelude::*;
use vstd::string::*;
use crate::content::{Operation, OperationView};
use crate::encoding::{encoded, Encoding};
use crate::error::Error;
use crate::extract::{collect_text, collected};
use crate::object::{lemma_array_view, object_views, Object, ObjectView};
use crate::search::{
    chars_eq, clamped, lemma_contains_iff_occurs, occurrences, replace_all, replaced_text,
    contains_text,
};
use crate::text::{chars_of, substr_spec, substring_spec};

verus! {

/// The bytes that show `text`, or those that show `default` where the
/// encoding has no bytes for `text`.
pub open spec fn encoded_or(table: Seq<Option<char>>, text: Seq<char>, default: Seq<char>) -> Seq<
    u8,
> {
    if encoded(table, text).len() > 0 {
        encoded(table, text)
    } else {
        encoded(table, default)
    }
}

/// The bytes of the first `n` characters of `text`, each encoded by itself
/// and replaced by `default` where the encoding lacks it.
pub open spec fn encoded_each(
    table: Seq<Option<char>>,
    text: Seq<char>,
    default: Seq<char>,
    n: nat,
) -> Seq<u8>
    decreases n,
{
    if n == 0 || n > text.len() {
        Seq::empty()
    } else {
        encoded_each(table, text, default, (n - 1) as nat) + encoded_or(
            table,
            seq![text[n - 1]],
            default,
        )
    }
}

/// The bytes that show `text` character by character, with `default` in
/// place of each character that the encoding lacks. Text of at most one
/// character is encoded as a whole.
pub open spec fn encoded_with_default(
    table: Seq<Option<char>>,
    text: Seq<char>,
    default: Seq<char>,
) -> Seq<u8> {
    if text.len() > 1 {
        encoded_each(table, text, default, text.len())
    } else {
        encoded_or(table, text, default)
    }
}

/// The bytes that show `text`: those of the whole text where the encoding
/// has them, else character by character with `default` as a fallback.
pub open spec fn encoded_with_fallback(
    table: Seq<Option<char>>,
    text: Seq<char>,
    default: Seq<char>,
) -> Seq<u8> {
    if encoded(table, text).len() > 0 {
        encoded(table, text)
    } else {
        encoded_with_default(table, text, default)
    }
}

/// The number of strings among the first `i` items.
pub open spec fn slots_before(items: Seq<ObjectView>, i: nat) -> nat
    decreases i,
{
    if i == 0 || i > items.len() {
        0
    } else {
        slots_before(items, (i - 1) as nat) + if items[i - 1] is String {
            1nat
        } else {
            0nat
        }
    }
}

/// Item `i` of a kerned array after the replacement was spread over its
/// strings, where the array showed `shown_len` characters.
///
/// The strings are the slots, counted from 0. The slot `shown_len - 1`
/// takes the replacement from its own place to the end; the slots after it
/// stay as they are. Before it, a slot for which the replacement has no
/// character left becomes null, and every other slot takes the one
/// character of the replacement at its place. An item that is no string
/// stays as it is.
pub open spec fn redistributed_item(
    table: Seq<Option<char>>,
    items: Seq<ObjectView>,
    replacement: Seq<char>,
    default: Seq<char>,
    shown_len: nat,
    i: int,
) -> ObjectView {
    match items[i] {
        ObjectView::String(bytes, format) => {
            let slot = slots_before(items, i as nat);
            if slot + 1 == shown_len {
                ObjectView::String(
                    encoded_with_default(table, substring_spec(replacement, slot), default),
                    format,
                )
            } else if shown_len > 0 && slot >= shown_len {
                items[i]
            } else if slot >= replacement.len() {
                ObjectView::Null
            } else {
                ObjectView::String(
                    encoded_with_default(table, substr_spec(replacement, slot, 1), default),
                    format,
                )
            }
        },
        other => other,
    }
}

/// A kerned array after the replacement was spread over its strings.
pub open spec fn redistributed(
    table: Seq<Option<char>>,
    items: Seq<ObjectView>,
    replacement: Seq<char>,
    default: Seq<char>,
    shown_len: nat,
) -> Seq<ObjectView> {
    Seq::new(
        items.len(),
        |i: int| redistributed_item(table, items, replacement, default, shown_len, i),
    )
}

/// The operands after exact replacement in the first `n` of them, and the
/// error at which it stopped, if it did.
///
/// A string that shows exactly `target` is encoded anew from `replacement`.
/// An array whose items together show exactly `target` has the replacement
/// spread over its strings. Every other operand stays as it is. A string
/// that cannot be decoded stops the replacement.
pub open spec fn replaced_exact(
    table: Seq<Option<char>>,
    operands: Seq<ObjectView>,
    target: Seq<char>,
    replacement: Seq<char>,
    default: Seq<char>,
    n: nat,
) -> (Seq<ObjectView>, Option<Error>)
    decreases n,
{
    if n == 0 || n > operands.len() {
        (operands, None)
    } else {
        let before = replaced_exact(table, operands, target, replacement, default, (n - 1) as nat);
        if before.1 is Some {
            before
        } else {
            match operands[n - 1] {
                ObjectView::String(bytes, format) => match crate::encoding::decoded(table, bytes) {
                    None => (before.0, Some(Error::CharacterEncoding)),
                    Some(text) => if text == target {
                        (
                            before.0.update(
                                n - 1,
                                ObjectView::String(
                                    encoded_with_default(table, replacement, default),
                                    format,
                                ),
                            ),
                            None,
                        )
                    } else {
                        before
                    },
                },
                ObjectView::Array(items) => {
                    let shown = collected(table, items, items.len());
                    if shown.1 is Some {
                        (before.0, shown.1)
                    } else if shown.0 == target {
                        (
                            before.0.update(
                                n - 1,
                                ObjectView::Array(
                                    redistributed(table, items, replacement, default, target.len()),
                                ),
                            ),
                            None,
                        )
                    } else {
                        before
                    }
                },
                _ => before,
            }
        }
    }
}

/// A string item after partial replacement, with the number of occurrences
/// replaced: a string that holds `search` is encoded anew from its text
/// with each occurrence replaced. The error is that of a string that cannot
/// be decoded. An item that is no string stays as it is.
pub open spec fn partial_item(
    table: Seq<Option<char>>,
    item: ObjectView,
    search: Seq<char>,
    replacement: Seq<char>,
    default: Seq<char>,
) -> (ObjectView, nat, Option<Error>) {
    match item {
        ObjectView::String(bytes, format) => match crate::encoding::decoded(table, bytes) {
            None => (item, 0, Some(Error::CharacterEncoding)),
            Some(text) => if contains_text(text, search) {
                (
                    ObjectView::String(
                        encoded_with_fallback(
                            table,
                            replaced_text(text, search, replacement),
                            default,
                        ),
                        format,
                    ),
                    occurrences(text, search),
                    None,
                )
            } else {
                (item, 0, None)
            },
        },
        _ => (item, 0, None),
    }
}

/// The items of an array after partial replacement in the first `n` of
/// them, the occurrences replaced, and the error at which it stopped, if it
/// did. Each string is a span of its own; an array within the array stays
/// as it is.
pub open spec fn partial_array(
    table: Seq<Option<char>>,
    items: Seq<ObjectView>,
    search: Seq<char>,
    replacement: Seq<char>,
    default: Seq<char>,
    n: nat,
) -> (Seq<ObjectView>, nat, Option<Error>)
    decreases n,
{
    if n == 0 || n > items.len() {
        (items, 0, None)
    } else {
        let before = partial_array(table, items, search, replacement, default, (n - 1) as nat);
        if before.2 is Some {
            before
        } else {
            let item = partial_item(table, items[n - 1], search, replacement, default);
            (before.0.update(n - 1, item.0), before.1 + item.1, item.2)
        }
    }
}

/// The operands after partial replacement in the first `n` of them, the
/// occurrences replaced, and the error at which it stopped, if it did.
pub open spec fn partial_operands(
    table: Seq<Option<char>>,
    operands: Seq<ObjectView>,
    search: Seq<char>,
    replacement: Seq<char>,
    default: Seq<char>,
    n: nat,
) -> (Seq<ObjectView>, nat, Option<Error>)
    decreases n,
{
    if n == 0 || n > operands.len() {
        (operands, 0, None)
    } else {
        let before = partial_operands(table, operands, search, replacement, default, (n - 1) as nat);
        if before.2 is Some {
            before
        } else {
            match operands[n - 1] {
                ObjectView::Array(items) => {
                    let inner = partial_array(
                        table,
                        items,
                        search,
                        replacement,
                        default,
                        items.len(),
                    );
                    (before.0.update(n - 1, ObjectView::Array(inner.0)), before.1 + inner.1, inner.2)
                },
                other => {
                    let item = partial_item(table, other, search, replacement, default);
                    (before.0.update(n - 1, item.0), before.1 + item.1, item.2)
                },
            }
        }
    }
}

/// The bytes that show `text`, or those of `default` where the encoding has
/// none for it.
fn encode_or(encoding: &Encoding, text: &Vec<char>, default: &Vec<char>) -> (res: Vec<u8>)
    ensures
        res@ == encoded_or(encoding@, text@, default@),
{
    let bytes = encoding.encode_chars(text);
    if bytes.len() > 0 {
        bytes
    } else {
        encoding.encode_chars(default)
    }
}

/// Encodes `text` character by character, with `default` in place of each
/// character that the encoding lacks.
pub fn encode_chars_with_default(encoding: &Encoding, text: &Vec<char>, default: &Vec<char>) -> (res:
    Vec<u8>)
    ensures
        res@ == encoded_with_default(encoding@, text@, default@),
{
    if text.len() > 1 {
        let mut out: Vec<u8> = Vec::new();
        let mut i: usize = 0;
        while i < text.len()
            invariant
                i <= text.len(),
                out@ == encoded_each(encoding@, text@, default@, i as nat),
            decreases text.len() - i,
        {
            let mut one: Vec<char> = Vec::new();
            one.push(text[i]);
            assert(one@ =~= seq![text@[i as int]]);
            let mut bytes = encode_or(encoding, &one, default);
            out.append(&mut bytes);
            i += 1;
        }
        out
    } else {
        encode_or(encoding, text, default)
    }
}

/// Encodes `txt` character by character, with `default_str` in place of
/// each character that the encoding lacks.
pub fn encode(encoding: &Encoding, txt: &str, default_str: &str) -> (res: Vec<u8>)
    ensures
        res@ == encoded_with_default(encoding@, txt@, default_str@),
{
    let text = chars_of(txt);
    let default = chars_of(default_str);
    encode_chars_with_default(encoding, &text, &default)
}

/// Encodes `text` as a whole where the encoding has it, else character by
/// character with `default` as a fallback.
pub fn encode_chars_with_fallback(encoding: &Encoding, text: &Vec<char>, default: &Vec<char>) -> (res:
    Vec<u8>)
    ensures
        res@ == encoded_with_fallback(encoding@, text@, default@),
{
    let bytes = encoding.encode_chars(text);
    if bytes.len() > 0 {
        bytes
    } else {
        encode_chars_with_default(encoding, text, default)
    }
}

/// Encodes `text` as a whole where the encoding has it, else character by
/// character with `default_char` as a fallback.
pub fn encode_with_fallback(encoding: &Encoding, text: &str, default_char: &str) -> (res: Vec<u8>)
    ensures
        res@ == encoded_with_fallback(encoding@, text@, default_char@),
{
    let chars = chars_of(text);
    let default = chars_of(default_char);
    encode_chars_with_fallback(encoding, &chars, &default)
}

/// The characters of `text` from `from` up to `to`.
fn chars_between(text: &Vec<char>, from: usize, to: usize) -> (res: Vec<char>)
    requires
        from <= to <= text@.len(),
    ensures
        res@ == text@.subrange(from as int, to as int),
{
    let mut out: Vec<char> = Vec::new();
    let mut i: usize = from;
    while i < to
        invariant
            from <= i <= to <= text@.len(),
            out@ == text@.subrange(from as int, i as int),
        decreases to - i,
    {
        out.push(text[i]);
        i += 1;
        assert(out@ =~= text@.subrange(from as int, i as int));
    }
    out
}

/// Spreads `replacement` over the strings of a kerned array that showed
/// `shown_len` characters.
fn redistribute(
    encoding: &Encoding,
    items: &Vec<Object>,
    replacement: &Vec<char>,
    default: &Vec<char>,
    shown_len: usize,
) -> (res: Vec<Object>)
    ensures
        object_views(res@) == redistributed(
            encoding@,
            object_views(items@),
            replacement@,
            default@,
            shown_len as nat,
        ),
{
    let ghost views = object_views(items@);
    let n = replacement.len();
    let mut out: Vec<Object> = Vec::new();
    let mut slot: usize = 0;
    let mut i: usize = 0;
    while i < items.len()
        invariant
            i <= items.len(),
            n == replacement@.len(),
            views == object_views(items@),
            slot == slots_before(views, i as nat),
            slot <= i,
            out@.len() == i,
            forall|k: int|
                0 <= k < i ==> (#[trigger] out@[k])@ == redistributed_item(
                    encoding@,
                    views,
                    replacement@,
                    default@,
                    shown_len as nat,
                    k,
                ),
        decreases items.len() - i,
    {
        assert(views[i as int] == items@[i as int]@);
        match &items[i] {
            Object::String(bytes, format) => {
                if shown_len > 0 && slot == shown_len - 1 {
                    let from: usize = if slot < n {
                        slot
                    } else {
                        n
                    };
                    let rest = chars_between(replacement, from, n);
                    assert(rest@ =~= substring_spec(replacement@, slot as nat));
                    out.push(
                        Object::String(encode_chars_with_default(encoding, &rest, default), *format),
                    );
                } else if shown_len > 0 && slot >= shown_len {
                    out.push(items[i].clone());
                } else if slot >= n {
                    out.push(Object::Null);
                } else {
                    let one = chars_between(replacement, slot, slot + 1);
                    assert(one@ =~= substr_spec(replacement@, slot as nat, 1));
                    out.push(
                        Object::String(encode_chars_with_default(encoding, &one, default), *format),
                    );
                }
                slot += 1;
            },
            _ => {
                out.push(items[i].clone());
            },
        }
        i += 1;
    }
    assert(object_views(out@) =~= redistributed(
        encoding@,
        views,
        replacement@,
        default@,
        shown_len as nat,
    ));
    out
}

/// The operation with `operands` in place of its own.
pub open spec fn with_operands(op: OperationView, operands: Seq<ObjectView>) -> OperationView {
    OperationView { operator: op.operator, operands }
}

/// Puts `value` in place of operand `i`.
fn set_operand(operation: &mut Operation, i: usize, value: Object)
    requires
        i < old(operation)@.operands.len(),
    ensures
        final(operation)@ == with_operands(
            old(operation)@,
            old(operation)@.operands.update(i as int, value@),
        ),
{
    operation.operands[i] = value;
    assert(object_views(operation.operands@) =~= old(operation)@.operands.update(i as int, value@));
}

/// Once a replacement has stopped, further operands change nothing.
proof fn lemma_exact_stopped(
    table: Seq<Option<char>>,
    operands: Seq<ObjectView>,
    target: Seq<char>,
    replacement: Seq<char>,
    default: Seq<char>,
    k: nat,
    n: nat,
)
    requires
        k <= n <= operands.len(),
        replaced_exact(table, operands, target, replacement, default, k).1 is Some,
    ensures
        replaced_exact(table, operands, target, replacement, default, n) == replaced_exact(
            table,
            operands,
            target,
            replacement,
            default,
            k,
        ),
    decreases n,
{
    if k < n {
        lemma_exact_stopped(table, operands, target, replacement, default, k, (n - 1) as nat);
    }
}

/// Replacement in the first `n` operands leaves the later ones as they are.
proof fn lemma_exact_keeps_rest(
    table: Seq<Option<char>>,
    operands: Seq<ObjectView>,
    target: Seq<char>,
    replacement: Seq<char>,
    default: Seq<char>,
    n: nat,
)
    requires
        n <= operands.len(),
    ensures
        replaced_exact(table, operands, target, replacement, default, n).0.len() == operands.len(),
        forall|j: int|
            n <= j < operands.len() ==> replaced_exact(
                table,
                operands,
                target,
                replacement,
                default,
                n,
            ).0[j] == operands[j],
    decreases n,
{
    if n > 0 {
        lemma_exact_keeps_rest(table, operands, target, replacement, default, (n - 1) as nat);
    }
}

/// Exact replacement in one text-showing operation: each string operand
/// that shows exactly `text_to_replace` is encoded anew from `replacement`,
/// and each kerned array that shows it has the replacement spread over its
/// strings. A string that cannot be decoded stops the replacement with its
/// error; the operands before it stay replaced.
pub fn try_to_replace_encoded_text(
    operation: &mut Operation,
    encoding: &Encoding,
    text_to_replace: &str,
    replacement: &str,
    default_str: &str,
) -> (res: Result<(), Error>)
    ensures
        ({
            let out = replaced_exact(
                encoding@,
                old(operation)@.operands,
                text_to_replace@,
                replacement@,
                default_str@,
                old(operation)@.operands.len(),
            );
            &&& final(operation)@ == with_operands(old(operation)@, out.0)
            &&& res == match out.1 {
                Some(e) => Err::<(), Error>(e),
                None => Ok::<(), Error>(()),
            }
        }),
{
    let target = chars_of(text_to_replace);
    let new_text = chars_of(replacement);
    let default = chars_of(default_str);
    let ghost table = encoding@;
    let ghost before = operation@;
    let ghost operands = operation@.operands;
    let n = operation.operands.len();
    let mut i: usize = 0;
    assert(operation@ == with_operands(before, operands));
    while i < n
        invariant
            i <= n,
            n == operands.len(),
            table == encoding@,
            operands == before.operands,
            before == old(operation)@,
            target@ == text_to_replace@,
            new_text@ == replacement@,
            default@ == default_str@,
            replaced_exact(table, operands, target@, new_text@, default@, i as nat).1 is None,
            operation@ == with_operands(
                before,
                replaced_exact(table, operands, target@, new_text@, default@, i as nat).0,
            ),
        decreases n - i,
    {
        proof {
            lemma_exact_keeps_rest(table, operands, target@, new_text@, default@, i as nat);
            assert(operation.operands@[i as int]@ == operands[i as int]);
        }
        let replaced: Option<Object> = match &operation.operands[i] {
            Object::String(bytes, format) => {
                match encoding.decode_chars(bytes.as_slice()) {
                    Some(shown) => {
                        if chars_eq(&shown, &target) {
                            Some(
                                Object::String(
                                    encode_chars_with_default(encoding, &new_text, &default),
                                    *format,
                                ),
                            )
                        } else {
                            None
                        }
                    },
                    None => {
                        proof {
                            lemma_exact_stopped(
                                table,
                                operands,
                                target@,
                                new_text@,
                                default@,
                                (i + 1) as nat,
                                n as nat,
                            );
                        }
                        return Err(Error::CharacterEncoding);
                    },
                }
            },
            Object::Array(items) => {
                proof {
                    lemma_array_view(*items);
                }
                let mut shown: Vec<char> = Vec::new();
                match collect_text(&mut shown, encoding, items) {
                    Ok(()) => {},
                    Err(e) => {
                        proof {
                            lemma_exact_stopped(
                                table,
                                operands,
                                target@,
                                new_text@,
                                default@,
                                (i + 1) as nat,
                                n as nat,
                            );
                        }
                        return Err(e);
                    },
                }
                assert(shown@ =~= collected(table, object_views(items@), items@.len()).0);
                if chars_eq(&shown, &target) {
                    let spread = redistribute(encoding, items, &new_text, &default, shown.len());
                    proof {
                        lemma_array_view(spread);
                    }
                    Some(Object::Array(spread))
                } else {
                    None
                }
            },
            _ => None,
        };
        match replaced {
            Some(value) => {
                set_operand(operation, i, value);
            },
            None => {},
        }
        i += 1;
    }
    Ok(())
}

/// Once a partial replacement in an array has stopped, further items
/// change nothing.
proof fn lemma_partial_array_stopped(
    table: Seq<Option<char>>,
    items: Seq<ObjectView>,
    search: Seq<char>,
    replacement: Seq<char>,
    default: Seq<char>,
    k: nat,
    n: nat,
)
    requires
        k <= n <= items.len(),
        partial_array(table, items, search, replacement, default, k).2 is Some,
    ensures
        partial_array(table, items, search, replacement, default, n) == partial_array(
            table,
            items,
            search,
            replacement,
            default,
            k,
        ),
    decreases n,
{
    if k < n {
        lemma_partial_array_stopped(table, items, search, replacement, default, k, (n - 1) as nat);
    }
}

/// Partial replacement in the first `n` items leaves the later ones as they are.
proof fn lemma_partial_array_keeps_rest(
    table: Seq<Option<char>>,
    items: Seq<ObjectView>,
    search: Seq<char>,
    replacement: Seq<char>,
    default: Seq<char>,
    n: nat,
)
    requires
        n <= items.len(),
    ensures
        partial_array(table, items, search, replacement, default, n).0.len() == items.len(),
        forall|j: int|
            n <= j < items.len() ==> partial_array(table, items, search, replacement, default, n).0[j]
                == items[j],
    decreases n,
{
    if n > 0 {
        lemma_partial_array_keeps_rest(table, items, search, replacement, default, (n - 1) as nat);
    }
}

/// Once a partial replacement has stopped, further operands change nothing.
proof fn lemma_partial_stopped(
    table: Seq<Option<char>>,
    operands: Seq<ObjectView>,
    search: Seq<char>,
    replacement: Seq<char>,
    default: Seq<char>,
    k: nat,
    n: nat,
)
    requires
        k <= n <= operands.len(),
        partial_operands(table, operands, search, replacement, default, k).2 is Some,
    ensures
        partial_operands(table, operands, search, replacement, default, n) == partial_operands(
            table,
            operands,
            search,
            replacement,
            default,
            k,
        ),
    decreases n,
{
    if k < n {
        lemma_partial_stopped(table, operands, search, replacement, default, k, (n - 1) as nat);
    }
}

/// Partial replacement in the first `n` operands leaves the later ones as
/// they are.
proof fn lemma_partial_keeps_rest(
    table: Seq<Option<char>>,
    operands: Seq<ObjectView>,
    search: Seq<char>,
    replacement: Seq<char>,
    default: Seq<char>,
    n: nat,
)
    requires
        n <= operands.len(),
    ensures
        partial_operands(table, operands, search, replacement, default, n).0.len()
            == operands.len(),
        forall|j: int|
            n <= j < operands.len() ==> partial_operands(
                table,
                operands,
                search,
                replacement,
                default,
                n,
            ).0[j] == operands[j],
    decreases n,
{
    if n > 0 {
        lemma_partial_keeps_rest(table, operands, search, replacement, default, (n - 1) as nat);
    }
}

/// Partial replacement in one string: the string as it is to stand, where
/// it holds the search text, and the occurrences replaced.
fn replace_partial_in_string(
    encoding: &Encoding,
    item: &Object,
    search: &Vec<char>,
    replacement: &Vec<char>,
    default: &Vec<char>,
) -> (res: Result<(Option<Object>, usize), Error>)
    ensures
        ({
            let out = partial_item(encoding@, item@, search@, replacement@, default@);
            match res {
                Ok((changed, count)) => out.2 is None && count == clamped(out.1) && match changed {
                    Some(value) => value@ == out.0,
                    None => item@ == out.0,
                },
                Err(e) => out.2 == Some(e),
            }
        }),
{
    match item {
        Object::String(bytes, format) => {
            match encoding.decode_chars(bytes.as_slice()) {
                Some(shown) => {
                    let (new_text, count) = replace_all(&shown, search, replacement);
                    proof {
                        lemma_contains_iff_occurs(shown@, search@, 0);
                        assert(contains_text(shown@, search@) <==> occurrences(shown@, search@) > 0)
                            by {
                            if contains_text(shown@, search@) {
                                let j = choose|j: int|
                                    crate::search::occurs_at(shown@, search@, j);
                                assert(0 <= j && crate::search::occurs_at(shown@, search@, j));
                            }
                        }
                    }
                    if count > 0 {
                        Ok(
                            (
                                Some(
                                    Object::String(
                                        encode_chars_with_fallback(encoding, &new_text, default),
                                        *format,
                                    ),
                                ),
                                count,
                            ),
                        )
                    } else {
                        Ok((None, 0))
                    }
                },
                None => Err(Error::CharacterEncoding),
            }
        },
        _ => Ok((None, 0)),
    }
}

/// The sum of two counts, as far as the machine can count.
fn add_counts(a: usize, b: usize) -> (res: usize)
    ensures
        res == clamped((a + b) as nat),
{
    if b <= usize::MAX - a {
        a + b
    } else {
        usize::MAX
    }
}

/// Partial replacement in the strings of a kerned array: each string is a
/// span of its own, in which every occurrence of `search_text` is replaced.
/// Returns the number of occurrences replaced, as far as the machine can
/// count. A string that cannot be decoded stops the replacement with its
/// error; the strings before it stay replaced.
pub fn replace_partial_in_array(
    arr: &mut Vec<Object>,
    encoding: &Encoding,
    search_text: &str,
    replacement_text: &str,
    default_char: &str,
) -> (res: Result<usize, Error>)
    ensures
        ({
            let out = partial_array(
                encoding@,
                object_views(old(arr)@),
                search_text@,
                replacement_text@,
                default_char@,
                old(arr)@.len(),
            );
            &&& object_views(final(arr)@) == out.0
            &&& res == match out.2 {
                Some(e) => Err::<usize, Error>(e),
                None => Ok::<usize, Error>(clamped(out.1)),
            }
        }),
{
    let search = chars_of(search_text);
    let replacement = chars_of(replacement_text);
    let default = chars_of(default_char);
    let ghost table = encoding@;
    let ghost items = object_views(arr@);
    let n = arr.len();
    let mut count: usize = 0;
    let mut i: usize = 0;
    while i < n
        invariant
            i <= n,
            n == items.len(),
            arr@.len() == n,
            table == encoding@,
            items == object_views(old(arr)@),
            search@ == search_text@,
            replacement@ == replacement_text@,
            default@ == default_char@,
            partial_array(table, items, search@, replacement@, default@, i as nat).2 is None,
            object_views(arr@) == partial_array(
                table,
                items,
                search@,
                replacement@,
                default@,
                i as nat,
            ).0,
            count == clamped(
                partial_array(table, items, search@, replacement@, default@, i as nat).1,
            ),
        decreases n - i,
    {
        proof {
            lemma_partial_array_keeps_rest(table, items, search@, replacement@, default@, i as nat);
            assert(arr@[i as int]@ == object_views(arr@)[i as int]);
        }
        let ghost views = object_views(arr@);
        match replace_partial_in_string(encoding, &arr[i], &search, &replacement, &default) {
            Ok((changed, more)) => {
                match changed {
                    Some(value) => {
                        arr[i] = value;
                        assert(object_views(arr@) =~= views.update(i as int, value@));
                    },
                    None => {
                        assert(views =~= views.update(i as int, views[i as int]));
                    },
                }
                count = add_counts(count, more);
            },
            Err(e) => {
                proof {
                    assert(views =~= views.update(i as int, views[i as int]));
                    lemma_partial_array_stopped(
                        table,
                        items,
                        search@,
                        replacement@,
                        default@,
                        (i + 1) as nat,
                        n as nat,
                    );
                }
                return Err(e);
            },
        }
        i += 1;
    }
    Ok(count)
}

/// Partial replacement in one text-showing operation: every occurrence of
/// `search_text` in each string operand, and in each string of each kerned
/// array, is replaced. Returns the number of occurrences replaced, as far
/// as the machine can count. A string that cannot be decoded stops the
/// replacement with its error; what stands before it stays replaced.
pub fn replace_partial_in_operation(
    operation: &mut Operation,
    encoding: &Encoding,
    search_text: &str,
    replacement_text: &str,
    default_char: &str,
) -> (res: Result<usize, Error>)
    ensures
        ({
            let out = partial_operands(
                encoding@,
                old(operation)@.operands,
                search_text@,
                replacement_text@,
                default_char@,
                old(operation)@.operands.len(),
            );
            &&& final(operation)@ == with_operands(old(operation)@, out.0)
            &&& res == match out.2 {
                Some(e) => Err::<usize, Error>(e),
                None => Ok::<usize, Error>(clamped(out.1)),
            }
        }),
{
    let search = chars_of(search_text);
    let replacement = chars_of(replacement_text);
    let default = chars_of(default_char);
    let ghost table = encoding@;
    let ghost before = operation@;
    let ghost operands = operation@.operands;
    let n = operation.operands.len();
    let mut count: usize = 0;
    let mut i: usize = 0;
    assert(operation@ == with_operands(before, operands));
    while i < n
        invariant
            i <= n,
            n == operands.len(),
            table == encoding@,
            operands == before.operands,
            before == old(operation)@,
            search@ == search_text@,
            replacement@ == replacement_text@,
            default@ == default_char@,
            partial_operands(table, operands, search@, replacement@, default@, i as nat).2 is None,
            operation@ == with_operands(
                before,
                partial_operands(table, operands, search@, replacement@, default@, i as nat).0,
            ),
            count == clamped(
                partial_operands(table, operands, search@, replacement@, default@, i as nat).1,
            ),
        decreases n - i,
    {
        let ghost done = partial_operands(
            table,
            operands,
            search@,
            replacement@,
            default@,
            i as nat,
        ).0;
        proof {
            lemma_partial_keeps_rest(table, operands, search@, replacement@, default@, i as nat);
            assert(operation.operands@[i as int]@ == operands[i as int]);
        }
        let changed: (Option<Object>, usize, Option<Error>) = match &operation.operands[i] {
            Object::Array(items) => {
                proof {
                    lemma_array_view(*items);
                }
                let mut copy = crate::object::clone_objects(items);
                let inner = replace_partial_in_array(
                    &mut copy,
                    encoding,
                    search_text,
                    replacement_text,
                    default_char,
                );
                proof {
                    lemma_array_view(copy);
                }
                match inner {
                    Ok(more) => (Some(Object::Array(copy)), more, None),
                    Err(e) => (Some(Object::Array(copy)), 0, Some(e)),
                }
            },
            other => {
                match replace_partial_in_string(encoding, other, &search, &replacement, &default) {
                    Ok((value, more)) => (value, more, None),
                    Err(e) => (None, 0, Some(e)),
                }
            },
        };
        match changed.0 {
            Some(value) => {
                set_operand(operation, i, value);
            },
            None => {
                assert(done =~= done.update(i as int, done[i as int]));
            },
        }
        match changed.2 {
            Some(e) => {
                proof {
                    lemma_partial_stopped(
                        table,
                        operands,
                        search@,
                        replacement@,
                        default@,
                        (i + 1) as nat,
                        n as nat,
                    );
                }
                return Err(e);
            },
            None => {},
        }
        count = add_counts(count, changed.1);
        i += 1;
    }
    Ok(count)
}

} // verus!
