//! Searching text: where a pattern occurs, how often, and what the text is
//! with every occurrence replaced.

use vstd::prelude::*;

verus! {

/// Whether `pattern` stands in `text` at place `i`.
pub open spec fn occurs_at(text: Seq<char>, pattern: Seq<char>, i: int) -> bool {
    0 <= i && i + pattern.len() <= text.len() && text.subrange(i, i + pattern.len()) == pattern
}

/// Whether `pattern` stands somewhere in `text`.
pub open spec fn contains_text(text: Seq<char>, pattern: Seq<char>) -> bool {
    exists|i: int| occurs_at(text, pattern, i)
}

/// `text` from place `i` on with each occurrence of `pattern` replaced by
/// `replacement`: occurrences are taken from left to right and do not
/// overlap. An empty pattern occurs before each character and at the end.
pub open spec fn replaced_from(
    text: Seq<char>,
    pattern: Seq<char>,
    replacement: Seq<char>,
    i: int,
) -> Seq<char>
    decreases text.len() - i,
{
    if i < 0 || i > text.len() {
        Seq::empty()
    } else if pattern.len() == 0 {
        if i == text.len() {
            replacement
        } else {
            replacement + seq![text[i]] + replaced_from(text, pattern, replacement, i + 1)
        }
    } else if occurs_at(text, pattern, i) {
        replacement + replaced_from(text, pattern, replacement, i + pattern.len())
    } else if i < text.len() {
        seq![text[i]] + replaced_from(text, pattern, replacement, i + 1)
    } else {
        Seq::empty()
    }
}

/// `text` with each occurrence of `pattern` replaced by `replacement`.
pub open spec fn replaced_text(text: Seq<char>, pattern: Seq<char>, replacement: Seq<char>) -> Seq<
    char,
> {
    replaced_from(text, pattern, replacement, 0)
}

/// The number of occurrences of `pattern` in `text` from place `i` on,
/// taken from left to right without overlap.
pub open spec fn occurrences_from(text: Seq<char>, pattern: Seq<char>, i: int) -> nat
    decreases text.len() - i,
{
    if i < 0 || i > text.len() {
        0
    } else if pattern.len() == 0 {
        if i == text.len() {
            1
        } else {
            1 + occurrences_from(text, pattern, i + 1)
        }
    } else if occurs_at(text, pattern, i) {
        1 + occurrences_from(text, pattern, i + pattern.len())
    } else if i < text.len() {
        occurrences_from(text, pattern, i + 1)
    } else {
        0
    }
}

/// The number of occurrences of `pattern` in `text`.
pub open spec fn occurrences(text: Seq<char>, pattern: Seq<char>) -> nat {
    occurrences_from(text, pattern, 0)
}

/// Text holds a pattern exactly where it holds an occurrence to count.
pub proof fn lemma_contains_iff_occurs(text: Seq<char>, pattern: Seq<char>, i: int)
    requires
        0 <= i <= text.len(),
    ensures
        occurrences_from(text, pattern, i) > 0 <==> exists|j: int| i <= j && occurs_at(text, pattern, j),
    decreases text.len() - i,
{
    if pattern.len() == 0 {
        assert(text.subrange(i, i + 0) =~= pattern);
        assert(occurs_at(text, pattern, i));
    } else if occurs_at(text, pattern, i) {
    } else if i < text.len() {
        lemma_contains_iff_occurs(text, pattern, i + 1);
        if exists|j: int| i <= j && occurs_at(text, pattern, j) {
            let j = choose|j: int| i <= j && occurs_at(text, pattern, j);
            assert(i + 1 <= j && occurs_at(text, pattern, j));
        }
    } else {
        if exists|j: int| i <= j && occurs_at(text, pattern, j) {
            let j = choose|j: int| i <= j && occurs_at(text, pattern, j);
            assert(false);
        }
    }
}

/// A count as the machine holds it: `n`, or the largest number where `n`
/// does not fit.
pub open spec fn clamped(n: nat) -> usize {
    if n <= usize::MAX {
        n as usize
    } else {
        usize::MAX
    }
}

/// Whether two texts hold the same characters.
pub fn chars_eq(a: &Vec<char>, b: &Vec<char>) -> (res: bool)
    ensures
        res == (a@ == b@),
{
    if a.len() != b.len() {
        return false;
    }
    let mut i: usize = 0;
    while i < a.len()
        invariant
            a@.len() == b@.len(),
            i <= a.len(),
            forall|k: int| 0 <= k < i ==> a@[k] == b@[k],
        decreases a.len() - i,
    {
        if a[i] != b[i] {
            return false;
        }
        i += 1;
    }
    assert(a@ =~= b@);
    true
}

/// Whether `pattern` stands in `text` at place `i`.
pub fn matches_at(text: &Vec<char>, pattern: &Vec<char>, i: usize) -> (res: bool)
    ensures
        res == occurs_at(text@, pattern@, i as int),
{
    if i > text.len() || pattern.len() > text.len() - i {
        return false;
    }
    let mut k: usize = 0;
    while k < pattern.len()
        invariant
            i + pattern.len() <= text.len(),
            k <= pattern.len(),
            forall|j: int| 0 <= j < k ==> text@[i + j] == pattern@[j],
        decreases pattern.len() - k,
    {
        if text[i + k] != pattern[k] {
            assert(text@.subrange(i as int, i + pattern@.len())[k as int] != pattern@[k as int]);
            return false;
        }
        k += 1;
    }
    assert(text@.subrange(i as int, i + pattern@.len()) =~= pattern@);
    true
}

/// Replaces each occurrence of `pattern` in `text` by `replacement` and
/// counts the occurrences, as far as the machine can count.
pub fn replace_all(text: &Vec<char>, pattern: &Vec<char>, replacement: &Vec<char>) -> (res: (
    Vec<char>,
    usize,
))
    ensures
        res.0@ == replaced_text(text@, pattern@, replacement@),
        res.1 == clamped(occurrences(text@, pattern@)),
{
    let mut out: Vec<char> = Vec::new();
    let mut count: usize = 0;
    let ghost mut seen: nat = 0;
    let mut i: usize = 0;
    let mut done = false;
    while !done
        invariant
            i <= text.len(),
            out@ + (if done {
                Seq::<char>::empty()
            } else {
                replaced_from(text@, pattern@, replacement@, i as int)
            }) == replaced_text(text@, pattern@, replacement@),
            seen + (if done {
                0
            } else {
                occurrences_from(text@, pattern@, i as int)
            }) == occurrences(text@, pattern@),
            count == clamped(seen),
        decreases text.len() - i + (if done { 0int } else { 1int }),
    {
        let ghost before = out@;
        let ghost rest = replaced_from(text@, pattern@, replacement@, i as int);
        if pattern.len() == 0 {
            extend_chars(&mut out, replacement);
            if count < usize::MAX {
                count += 1;
            }
            proof {
                seen = seen + 1;
            }
            if i == text.len() {
                done = true;
                assert(out@ + Seq::<char>::empty() =~= before + rest);
            } else {
                out.push(text[i]);
                i += 1;
                assert(out@ + replaced_from(text@, pattern@, replacement@, i as int) =~= before
                    + rest);
            }
        } else if matches_at(text, pattern, i) {
            extend_chars(&mut out, replacement);
            if count < usize::MAX {
                count += 1;
            }
            proof {
                seen = seen + 1;
            }
            i += pattern.len();
            assert(out@ + replaced_from(text@, pattern@, replacement@, i as int) =~= before + rest);
        } else if i < text.len() {
            out.push(text[i]);
            i += 1;
            assert(out@ + replaced_from(text@, pattern@, replacement@, i as int) =~= before + rest);
        } else {
            done = true;
            assert(out@ + Seq::<char>::empty() =~= before + rest);
        }
    }
    assert(out@ + Seq::<char>::empty() =~= out@);
    (out, count)
}

/// Appends the characters of `more` to `text`.
pub fn extend_chars(text: &mut Vec<char>, more: &Vec<char>)
    ensures
        final(text)@ == old(text)@ + more@,
{
    let mut i: usize = 0;
    assert(text@ =~= old(text)@ + more@.take(0));
    while i < more.len()
        invariant
            i <= more.len(),
            text@ == old(text)@ + more@.take(i as int),
        decreases more.len() - i,
    {
        text.push(more[i]);
        i += 1;
        assert(text@ =~= old(text)@ + more@.take(i as int));
    }
    assert(more@.take(i as int) =~= more@);
}

} // verus!
