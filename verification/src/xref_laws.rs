//! What holds of every decoded cross-reference stream.

use vstd::prelude::*;
use crate::xref::XrefEntry;
use crate::xref_stream::{
    entries_after, field_value, pair_count, row_entry, row_kind, row_number, row_second,
    row_third, rows_before, total_rows, wrap32, FieldWidths,
};

verus! {

/// Whether row `r` carries the object number `n` and gives an entry.
pub open spec fn gives_entry(
    content: Seq<u8>,
    w: FieldWidths,
    index: Seq<i64>,
    r: nat,
    n: u32,
) -> bool {
    row_number(index, index.len() / 2, r) == n && row_entry(content, w, r) is Some
}

/// Every row that the first `n` pairs declare lies in one of them: the
/// result names the pair and the row's place in it.
pub proof fn lemma_row_in_pair(index: Seq<i64>, n: nat, r: nat) -> (p: (nat, nat))
    requires
        r < rows_before(index, n),
    ensures
        p.0 < n,
        p.1 < pair_count(index, p.0 as int),
        r == rows_before(index, p.0) + p.1,
        row_number(index, n, r) == wrap32(index[2 * (p.0 as int)] + p.1),
    decreases n,
{
    if r >= rows_before(index, (n - 1) as nat) {
        ((n - 1) as nat, (r - rows_before(index, (n - 1) as nat)) as nat)
    } else {
        lemma_row_in_pair(index, (n - 1) as nat, r)
    }
}

/// After `k` rows, an object number has an entry exactly where one of those
/// rows carries the number and is of type 1 or 2: a free row and a row of
/// another type give none. The entry is that of the last such row.
pub proof fn lemma_entries_after(
    content: Seq<u8>,
    w: FieldWidths,
    index: Seq<i64>,
    k: nat,
    n: u32,
)
    ensures
        entries_after(content, w, index, k).contains_key(n) <==> exists|r: nat|
            r < k && gives_entry(content, w, index, r, n),
        forall|r: nat|
            r < k && #[trigger] gives_entry(content, w, index, r, n) && (forall|later: nat|
                r < later < k ==> !gives_entry(content, w, index, later, n)) ==> entries_after(
                content,
                w,
                index,
                k,
            )[n] == row_entry(content, w, r)->Some_0,
    decreases k,
{
    if k > 0 {
        let last = (k - 1) as nat;
        lemma_entries_after(content, w, index, last, n);
        let before = entries_after(content, w, index, last);
        if gives_entry(content, w, index, last, n) {
            assert forall|r: nat|
                r < k && #[trigger] gives_entry(content, w, index, r, n) && (forall|later: nat|
                    r < later < k ==> !gives_entry(
                        content,
                        w,
                        index,
                        later,
                        n,
                    )) implies entries_after(content, w, index, k)[n] == row_entry(
                content,
                w,
                r,
            )->Some_0 by {
                if r < last {
                    assert(!gives_entry(content, w, index, last, n));
                }
            }
        } else {
            assert(entries_after(content, w, index, k).contains_key(n) == before.contains_key(n));
            if before.contains_key(n) {
                assert(entries_after(content, w, index, k)[n] == before[n]);
            }
            if exists|r: nat| r < k && gives_entry(content, w, index, r, n) {
                let r = choose|r: nat| r < k && gives_entry(content, w, index, r, n);
                assert(r < last && gives_entry(content, w, index, r, n));
            }
            assert forall|r: nat|
                r < k && #[trigger] gives_entry(content, w, index, r, n) && (forall|later: nat|
                    r < later < k ==> !gives_entry(
                        content,
                        w,
                        index,
                        later,
                        n,
                    )) implies entries_after(content, w, index, k)[n] == row_entry(
                content,
                w,
                r,
            )->Some_0 by {
                assert(r < last);
                assert(forall|later: nat|
                    r < later < last ==> !gives_entry(content, w, index, later, n));
                assert(before.contains_key(n));
            }
        }
    }
}

/// The number of the first `k` rows that give an entry.
pub open spec fn entry_rows(content: Seq<u8>, w: FieldWidths, k: nat) -> nat
    decreases k,
{
    if k == 0 {
        0
    } else {
        entry_rows(content, w, (k - 1) as nat) + if row_entry(content, w, (k - 1) as nat) is Some {
            1nat
        } else {
            0nat
        }
    }
}

/// Where no two of the first `k` rows carry the same object number, there
/// is exactly one entry for each of them that is of type 1 or 2.
pub proof fn lemma_one_entry_per_row(content: Seq<u8>, w: FieldWidths, index: Seq<i64>, k: nat)
    requires
        forall|r1: nat, r2: nat|
            r1 < r2 < k ==> #[trigger] row_number(index, index.len() / 2, r1)
                != #[trigger] row_number(index, index.len() / 2, r2),
    ensures
        entries_after(content, w, index, k).dom().finite(),
        entries_after(content, w, index, k).len() == entry_rows(content, w, k),
    decreases k,
{
    if k > 0 {
        let last = (k - 1) as nat;
        let n = row_number(index, index.len() / 2, last);
        lemma_one_entry_per_row(content, w, index, last);
        lemma_entries_after(content, w, index, last, n);
        let before = entries_after(content, w, index, last);
        if before.contains_key(n) {
            let r = choose|r: nat| r < last && gives_entry(content, w, index, r, n);
            assert(row_number(index, index.len() / 2, r) == row_number(
                index,
                index.len() / 2,
                last,
            ));
        }
    }
}

/// No entry stands outside the index: an object number with an entry is the
/// start of some pair plus a place below that pair's count.
pub proof fn lemma_entries_within_index(
    content: Seq<u8>,
    w: FieldWidths,
    index: Seq<i64>,
    n: u32,
) -> (p: (nat, nat))
    requires
        entries_after(content, w, index, total_rows(index)).contains_key(n),
    ensures
        p.0 < index.len() / 2,
        p.1 < pair_count(index, p.0 as int),
        n == wrap32(index[2 * (p.0 as int)] + p.1),
{
    lemma_entries_after(content, w, index, total_rows(index), n);
    let r = choose|r: nat| r < total_rows(index) && gives_entry(content, w, index, r, n);
    lemma_row_in_pair(index, index.len() / 2, r)
}

/// Where the first and the third field have no width, every row is of the
/// normal type and of generation 0.
pub proof fn lemma_narrow_rows_are_normal(content: Seq<u8>, w: FieldWidths, k: nat)
    requires
        w.first == 0,
        w.third == 0,
    ensures
        row_entry(content, w, k) == Some(
            XrefEntry::Normal { offset: row_second(content, w, k), generation: 0 },
        ),
{
}

/// The number of values that `width` bytes can spell.
pub open spec fn capacity(width: nat) -> nat
    decreases width,
{
    if width == 0 {
        1
    } else {
        256 * capacity((width - 1) as nat)
    }
}

/// `v` written big-endian in `width` bytes.
pub open spec fn be_bytes(v: nat, width: nat) -> Seq<u8>
    decreases width,
{
    if width == 0 {
        Seq::empty()
    } else {
        be_bytes(v / 256, (width - 1) as nat).push((v % 256) as u8)
    }
}

/// The three fields that spell an entry: its type and its two values.
pub open spec fn entry_fields(e: XrefEntry) -> (nat, nat, nat) {
    match e {
        XrefEntry::Free => (0, 0, 0),
        XrefEntry::Normal { offset, generation } => (1, offset as nat, generation as nat),
        XrefEntry::Compressed { container, index } => (2, container as nat, index as nat),
    }
}

/// One entry written as a row.
pub open spec fn encode_row(w: FieldWidths, e: XrefEntry) -> Seq<u8> {
    let f = entry_fields(e);
    be_bytes(f.0, w.first) + be_bytes(f.1, w.second) + be_bytes(f.2, w.third)
}

/// Entries written as rows, one after the other.
pub open spec fn encode_rows(w: FieldWidths, rows: Seq<XrefEntry>) -> Seq<u8>
    decreases rows.len(),
{
    if rows.len() == 0 {
        Seq::empty()
    } else {
        encode_rows(w, rows.drop_last()) + encode_row(w, rows.last())
    }
}

/// Whether the widths are wide enough for the fields of `e`.
pub open spec fn representable(w: FieldWidths, e: XrefEntry) -> bool {
    let f = entry_fields(e);
    w.first >= 1 && f.1 < capacity(w.second) && f.2 < capacity(w.third)
}

/// What a row decodes to when it spells `e`.
pub open spec fn entry_of_row(e: XrefEntry) -> Option<XrefEntry> {
    match e {
        XrefEntry::Free => None,
        _ => Some(e),
    }
}

proof fn lemma_be_bytes_len(v: nat, width: nat)
    ensures
        be_bytes(v, width).len() == width,
    decreases width,
{
    if width > 0 {
        lemma_be_bytes_len(v / 256, (width - 1) as nat);
    }
}

/// A number that fits its width reads back as it was written.
pub proof fn lemma_field_of_be_bytes(v: nat, width: nat)
    requires
        v < capacity(width),
        v <= u64::MAX,
    ensures
        field_value(be_bytes(v, width)) == v,
    decreases width,
{
    if width > 0 {
        let c = capacity((width - 1) as nat);
        assert(v / 256 < c) by (nonlinear_arith)
            requires
                v < 256 * c,
        ;
        lemma_field_of_be_bytes(v / 256, (width - 1) as nat);
        let b = be_bytes(v, width);
        assert(b.drop_last() =~= be_bytes(v / 256, (width - 1) as nat));
        assert(b.last() == (v % 256) as u8);
        assert((v / 256) * 256 + v % 256 == v) by (nonlinear_arith);
    } else {
        assert(be_bytes(v, width).len() == 0);
    }
}

proof fn lemma_encode_row_len(w: FieldWidths, e: XrefEntry)
    ensures
        encode_row(w, e).len() == w.row_len(),
{
    let f = entry_fields(e);
    lemma_be_bytes_len(f.0, w.first);
    lemma_be_bytes_len(f.1, w.second);
    lemma_be_bytes_len(f.2, w.third);
}

proof fn lemma_encode_rows_len(w: FieldWidths, rows: Seq<XrefEntry>)
    ensures
        encode_rows(w, rows).len() == rows.len() * w.row_len(),
    decreases rows.len(),
{
    if rows.len() > 0 {
        lemma_encode_rows_len(w, rows.drop_last());
        lemma_encode_row_len(w, rows.last());
        assert((rows.len() - 1) * w.row_len() + w.row_len() == rows.len() * w.row_len())
            by (nonlinear_arith);
    }
}

/// A stretch of row `k` of the written rows is that stretch of the row
/// written alone.
proof fn lemma_row_of_rows(w: FieldWidths, rows: Seq<XrefEntry>, k: nat, a: nat, b: nat)
    requires
        k < rows.len(),
        a <= b <= w.row_len(),
    ensures
        encode_rows(w, rows).subrange((k * w.row_len() + a) as int, (k * w.row_len() + b) as int)
            == encode_row(w, rows[k as int]).subrange(a as int, b as int),
    decreases rows.len(),
{
    let front = rows.drop_last();
    lemma_encode_rows_len(w, front);
    lemma_encode_rows_len(w, rows);
    lemma_encode_row_len(w, rows.last());
    let all = encode_rows(w, rows);
    if k == rows.len() - 1 {
        assert(all.subrange((k * w.row_len() + a) as int, (k * w.row_len() + b) as int)
            =~= encode_row(w, rows[k as int]).subrange(a as int, b as int));
    } else {
        lemma_row_of_rows(w, front, k, a, b);
        assert((k + 1) * w.row_len() <= (rows.len() - 1) * w.row_len()) by (nonlinear_arith)
            requires
                k + 1 <= rows.len() - 1,
        ;
        assert((k + 1) * w.row_len() == k * w.row_len() + w.row_len()) by (nonlinear_arith);
        assert(all.subrange((k * w.row_len() + a) as int, (k * w.row_len() + b) as int)
            =~= encode_rows(w, front).subrange(
            (k * w.row_len() + a) as int,
            (k * w.row_len() + b) as int,
        ));
        assert(front[k as int] == rows[k as int]);
    }
}

/// Rows that were written from entries decode to those entries: a normal
/// or a compressed entry to itself, a free entry to none.
pub proof fn lemma_rows_round_trip(w: FieldWidths, rows: Seq<XrefEntry>, k: nat)
    requires
        forall|i: int| 0 <= i < rows.len() ==> representable(w, #[trigger] rows[i]),
        k < rows.len(),
    ensures
        row_entry(encode_rows(w, rows), w, k) == entry_of_row(rows[k as int]),
{
    let e = rows[k as int];
    let f = entry_fields(e);
    let row = encode_row(w, e);
    let content = encode_rows(w, rows);
    assert(representable(w, e));
    lemma_be_bytes_len(f.0, w.first);
    lemma_be_bytes_len(f.1, w.second);
    lemma_be_bytes_len(f.2, w.third);
    lemma_row_of_rows(w, rows, k, 0, w.first);
    lemma_row_of_rows(w, rows, k, w.first, w.first + w.second);
    lemma_row_of_rows(w, rows, k, w.first + w.second, w.row_len());
    assert(row.subrange(0, w.first as int) =~= be_bytes(f.0, w.first));
    assert(row.subrange(w.first as int, (w.first + w.second) as int) =~= be_bytes(f.1, w.second));
    assert(row.subrange((w.first + w.second) as int, w.row_len() as int) =~= be_bytes(
        f.2,
        w.third,
    ));
    assert(f.0 < capacity(w.first)) by {
        assert(capacity(w.first) == 256 * capacity((w.first - 1) as nat));
        lemma_capacity_positive((w.first - 1) as nat);
    }
    lemma_field_of_be_bytes(f.0, w.first);
    lemma_field_of_be_bytes(f.1, w.second);
    lemma_field_of_be_bytes(f.2, w.third);
    assert(row_kind(content, w, k) == f.0);
    assert(row_second(content, w, k) == f.1);
    assert(row_third(content, w, k) == f.2);
}

proof fn lemma_capacity_positive(width: nat)
    ensures
        capacity(width) >= 1,
    decreases width,
{
    if width > 0 {
        lemma_capacity_positive((width - 1) as nat);
    }
}

/// A section written from entries and decoded again holds the entries that
/// went in: under the number `start + j` stands entry `j` if it is normal or
/// compressed, and nothing if it is free.
pub proof fn lemma_section_round_trip(w: FieldWidths, rows: Seq<XrefEntry>, start: u32, j: nat)
    requires
        forall|i: int| 0 <= i < rows.len() ==> representable(w, #[trigger] rows[i]),
        start + rows.len() <= 0x1_0000_0000,
        j < rows.len(),
    ensures
        ({
            let index = seq![start as i64, rows.len() as i64];
            let entries = entries_after(encode_rows(w, rows), w, index, rows.len());
            &&& total_rows(index) == rows.len()
            &&& encode_rows(w, rows).len() == rows.len() * w.row_len()
            &&& match rows[j as int] {
                XrefEntry::Free => !entries.contains_key((start + j) as u32),
                e => entries.contains_key((start + j) as u32) && entries[(start + j) as u32] == e,
            }
        }),
{
    let index = seq![start as i64, rows.len() as i64];
    let content = encode_rows(w, rows);
    let n = (start + j) as u32;
    lemma_encode_rows_len(w, rows);
    assert(index.len() / 2 == 1);
    assert(rows_before(index, 1) == rows_before(index, 0) + pair_count(index, 0));
    assert(total_rows(index) == rows.len());
    assert forall|r: nat| r < rows.len() implies row_number(index, 1, r) == start + r by {
        assert(rows_before(index, 0) == 0);
    }
    lemma_entries_after(content, w, index, rows.len(), n);
    lemma_rows_round_trip(w, rows, j);
    assert forall|r: nat| r < rows.len() && gives_entry(content, w, index, r, n) implies r
        == j by {
        assert(row_number(index, 1, r) == start + r);
    }
    if rows[j as int] is Free {
        assert(!gives_entry(content, w, index, j, n));
    } else {
        assert(row_number(index, 1, j) == start + j);
        assert(gives_entry(content, w, index, j, n));
    }
}

} // verus!
