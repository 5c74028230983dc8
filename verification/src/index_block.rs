//! The index block of an object stream: white-space separated decimal
//! numbers, read in pairs of object number and offset.

use vstd::prelude::*;
use crate::diagnostics::Warning;

verus! {

/// Whether `c` is white space: a character with the Unicode property
/// `White_Space`.
pub open spec fn is_space(c: char) -> bool {
    let u = c as u32;
    (0x09 <= u <= 0x0d) || u == 0x20 || u == 0x85 || u == 0xa0 || u == 0x1680 || (0x2000 <= u
        <= 0x200a) || u == 0x2028 || u == 0x2029 || u == 0x202f || u == 0x205f || u == 0x3000
}

/// The words of `text`: its longest runs of characters that are not white
/// space, in order.
pub open spec fn words(text: Seq<char>) -> Seq<Seq<char>>
    decreases text.len(),
{
    if text.len() == 0 {
        Seq::empty()
    } else {
        let before = words(text.drop_last());
        let c = text.last();
        if is_space(c) {
            before
        } else if text.len() >= 2 && !is_space(text[text.len() - 2]) {
            before.drop_last().push(before.last().push(c))
        } else {
            before.push(seq![c])
        }
    }
}

/// Whether `c` is a decimal digit.
pub open spec fn is_digit(c: char) -> bool {
    0x30 <= c as u32 <= 0x39
}

/// The number that decimal digits spell.
pub open spec fn digits_value(digits: Seq<char>) -> nat
    decreases digits.len(),
{
    if digits.len() == 0 {
        0
    } else {
        digits_value(digits.drop_last()) * 10 + (digits.last() as u32 - 0x30) as nat
    }
}

/// The word without the `+` that it may start with.
pub open spec fn unsigned_part(word: Seq<char>) -> Seq<char> {
    if word.len() > 0 && word[0] == '+' {
        word.subrange(1, word.len() as int)
    } else {
        word
    }
}

/// The number that `word` spells: decimal digits, at least one, after at
/// most one `+`, with a value that 32 bits hold. Any other word spells none.
pub open spec fn number_of(word: Seq<char>) -> Option<u32> {
    let digits = unsigned_part(word);
    if digits.len() > 0 && (forall|i: int| 0 <= i < digits.len() ==> is_digit(digits[i]))
        && digits_value(digits) <= u32::MAX {
        Some(digits_value(digits) as u32)
    } else {
        None
    }
}

/// The numbers of `text`: what each of its words spells.
pub open spec fn numbers(text: Seq<char>) -> Seq<Option<u32>> {
    Seq::new(words(text).len(), |i: int| number_of(words(text)[i]))
}

/// The entry that pair `i` of the numbers gives: the object number and the
/// offset from the start of the content, `first` bytes further than the pair
/// says. A pair with a half that is no number gives none, and so does one
/// whose offset lies at or past `len`.
pub open spec fn index_entry(nums: Seq<Option<u32>>, i: int, first: nat, len: nat) -> Option<
    (u32, usize),
> {
    match (nums[2 * i], nums[2 * i + 1]) {
        (Some(id), Some(offset)) => if first + offset < len {
            Some((id, (first + offset) as usize))
        } else {
            None
        },
        _ => None,
    }
}

/// The entries that the first `pairs` pairs give, in order.
pub open spec fn entries_of_pairs(nums: Seq<Option<u32>>, pairs: nat, first: nat, len: nat) -> Seq<
    (u32, usize),
>
    decreases pairs,
{
    if pairs == 0 {
        Seq::empty()
    } else {
        let before = entries_of_pairs(nums, (pairs - 1) as nat, first, len);
        match index_entry(nums, pairs - 1, first, len) {
            Some(entry) => before.push(entry),
            None => before,
        }
    }
}

/// The entries of an index block: those of its complete pairs. A last
/// number without a partner is left out.
pub open spec fn index_entries(text: Seq<char>, first: nat, len: nat) -> Seq<(u32, usize)> {
    entries_of_pairs(numbers(text), numbers(text).len() / 2, first, len)
}

/// The views of a vector of words.
pub open spec fn word_views(v: Seq<Vec<char>>) -> Seq<Seq<char>> {
    Seq::new(v.len(), |i: int| v[i]@)
}

/// Whether `c` is white space.
pub fn is_whitespace(c: char) -> (res: bool)
    ensures
        res == is_space(c),
{
    let u: u32 = c as u32;
    (0x09 <= u && u <= 0x0d) || u == 0x20 || u == 0x85 || u == 0xa0 || u == 0x1680 || (0x2000
        <= u && u <= 0x200a) || u == 0x2028 || u == 0x2029 || u == 0x202f || u == 0x205f || u
        == 0x3000
}

/// Splits `text` at white space.
pub fn split_words(text: &Vec<char>) -> (res: Vec<Vec<char>>)
    ensures
        word_views(res@) == words(text@),
{
    let mut done: Vec<Vec<char>> = Vec::new();
    let mut current: Vec<char> = Vec::new();
    let mut i: usize = 0;
    while i < text.len()
        invariant
            i <= text.len(),
            current@.len() > 0 <==> (i > 0 && !is_space(text@[i - 1])),
            words(text@.take(i as int)) == if current@.len() > 0 {
                word_views(done@).push(current@)
            } else {
                word_views(done@)
            },
        decreases text.len() - i,
    {
        let c = text[i];
        proof {
            let next = text@.take(i + 1);
            assert(next.drop_last() =~= text@.take(i as int));
            assert(next.last() == c);
            if i > 0 {
                assert(next[next.len() - 2] == text@[i - 1]);
            }
        }
        if is_whitespace(c) {
            if current.len() > 0 {
                let ghost before = word_views(done@);
                done.push(current);
                current = Vec::new();
                assert(word_views(done@) =~= before.push(done@.last()@));
            }
        } else {
            let ghost before = current@;
            current.push(c);
            proof {
                if before.len() > 0 {
                    let all = word_views(done@).push(before);
                    assert(all.drop_last() =~= word_views(done@));
                    assert(all.last() == before);
                } else {
                    assert(current@ =~= seq![c]);
                }
            }
        }
        i += 1;
    }
    assert(text@.take(i as int) =~= text@);
    if current.len() > 0 {
        let ghost before = word_views(done@);
        done.push(current);
        assert(word_views(done@) =~= before.push(done@.last()@));
    }
    done
}

/// The number that `word` spells.
pub fn parse_number(word: &Vec<char>) -> (res: Option<u32>)
    ensures
        res == number_of(word@),
{
    let n = word.len();
    if n == 0 {
        return None;
    }
    let start: usize = if word[0] == '+' {
        1
    } else {
        0
    };
    if start == n {
        return None;
    }
    let ghost digits = word@.subrange(start as int, n as int);
    assert(digits =~= unsigned_part(word@));
    let mut acc: u64 = 0;
    let mut i: usize = start;
    while i < n
        invariant
            start <= i <= n,
            n == word@.len(),
            digits == word@.subrange(start as int, n as int),
            digits == unsigned_part(word@),
            forall|k: int| 0 <= k < i - start ==> is_digit(digits[k]),
            acc <= 0x1_0000_0000,
            acc == if digits_value(digits.take(i - start)) < 0x1_0000_0000 {
                digits_value(digits.take(i - start))
            } else {
                0x1_0000_0000
            },
        decreases n - i,
    {
        let c: char = word[i];
        let u: u32 = c as u32;
        if u < 0x30 || u > 0x39 {
            assert(!is_digit(digits[i - start]));
            return None;
        }
        proof {
            let next = digits.take(i - start + 1);
            assert(next.drop_last() =~= digits.take(i - start));
            assert(next.last() == word@[i as int]);
        }
        let d: u64 = (u - 0x30) as u64;
        acc = acc * 10 + d;
        if acc > 0x1_0000_0000 {
            acc = 0x1_0000_0000;
        }
        i += 1;
    }
    assert(digits.take(n - start) =~= digits);
    if acc > 0xffff_ffff {
        None
    } else {
        Some(acc as u32)
    }
}

/// The numbers of `text`.
pub fn read_numbers(text: &Vec<char>) -> (res: Vec<Option<u32>>)
    ensures
        res@ == numbers(text@),
{
    let split = split_words(text);
    let mut nums: Vec<Option<u32>> = Vec::new();
    let mut w: usize = 0;
    while w < split.len()
        invariant
            w <= split.len(),
            word_views(split@) == words(text@),
            nums@ == numbers(text@).take(w as int),
        decreases split.len() - w,
    {
        let number = parse_number(&split[w]);
        assert(split@[w as int]@ == word_views(split@)[w as int]);
        nums.push(number);
        w += 1;
        assert(nums@ =~= numbers(text@).take(w as int));
    }
    assert(nums@ =~= numbers(text@));
    nums
}

/// The entries that the complete pairs of `nums` give.
pub fn entries_from_numbers(nums: &Vec<Option<u32>>, first: usize, len: usize) -> (res: Vec<
    (u32, usize),
>)
    ensures
        res@ == entries_of_pairs(nums@, nums@.len() / 2, first as nat, len as nat),
        forall|i: int| 0 <= i < res@.len() ==> first <= (#[trigger] res@[i]).1 < len,
{
    let pairs: usize = nums.len() / 2;
    let mut out: Vec<(u32, usize)> = Vec::new();
    let mut i: usize = 0;
    while i < pairs
        invariant
            i <= pairs,
            pairs == nums@.len() / 2,
            nums@.len() <= usize::MAX,
            out@ == entries_of_pairs(nums@, i as nat, first as nat, len as nat),
            forall|k: int| 0 <= k < out@.len() ==> first <= (#[trigger] out@[k]).1 < len,
        decreases pairs - i,
    {
        assert(2 * i + 1 < nums@.len());
        match (nums[2 * i], nums[2 * i + 1]) {
            (Some(id), Some(offset)) => {
                let absolute: u128 = first as u128 + offset as u128;
                if absolute < len as u128 {
                    out.push((id, absolute as usize));
                }
            },
            _ => {},
        }
        i += 1;
    }
    out
}

/// The entries of the index block `text` of content that is `len` bytes
/// long and whose objects start `first` bytes into it.
pub fn read_index_entries(text: &Vec<char>, first: usize, len: usize) -> (res: Vec<(u32, usize)>)
    ensures
        res@ == index_entries(text@, first as nat, len as nat),
        forall|i: int| 0 <= i < res@.len() ==> first <= (#[trigger] res@[i]).1 < len,
{
    let nums = read_numbers(text);
    entries_from_numbers(&nums, first, len)
}

/// How many of the first `n` words spell a number.
pub open spec fn valid_numbers(nums: Seq<Option<u32>>, n: nat) -> nat
    decreases n,
{
    if n == 0 || n > nums.len() {
        0
    } else {
        valid_numbers(nums, (n - 1) as nat) + if nums[n - 1] is Some {
            1nat
        } else {
            0nat
        }
    }
}

/// The warnings for the first `pairs` pairs: one for each pair of two
/// numbers whose offset lies at or past `len`, in order.
pub open spec fn skipped_entries(nums: Seq<Option<u32>>, pairs: nat, first: nat, len: nat) -> Seq<
    Warning,
>
    decreases pairs,
{
    if pairs == 0 {
        Seq::empty()
    } else {
        let before = skipped_entries(nums, (pairs - 1) as nat, first, len);
        match (nums[2 * (pairs - 1)], nums[2 * (pairs - 1) + 1]) {
            (Some(id), Some(offset)) => if first + offset >= len {
                before.push(Warning::OffsetOutOfBounds(id))
            } else {
                before
            },
            _ => before,
        }
    }
}

/// The warnings of an index block: that the declared count is not half the
/// count of the numbers in it, and then each entry that was skipped because
/// it points outside the content.
pub open spec fn index_warnings(nums: Seq<Option<u32>>, declared: i64, first: nat, len: nat) -> Seq<
    Warning,
> {
    let count = if 2 * declared == valid_numbers(nums, nums.len()) {
        Seq::<Warning>::empty()
    } else {
        seq![Warning::WrongObjectCount]
    };
    count + skipped_entries(nums, nums.len() / 2, first, len)
}

/// The warnings of an index block with the numbers `nums`, in content that
/// is `len` bytes long, whose objects start `first` bytes into it and whose
/// dictionary declares `declared` objects.
pub fn warnings_from_numbers(nums: &Vec<Option<u32>>, declared: i64, first: usize, len: usize) -> (res:
    Vec<Warning>)
    ensures
        res@ == index_warnings(nums@, declared, first as nat, len as nat),
{
    let mut valid: usize = 0;
    let mut w: usize = 0;
    while w < nums.len()
        invariant
            w <= nums.len(),
            valid == valid_numbers(nums@, w as nat),
            valid <= w,
        decreases nums.len() - w,
    {
        if nums[w].is_some() {
            valid += 1;
        }
        w += 1;
    }
    let mut out: Vec<Warning> = Vec::new();
    if 2 * (declared as i128) != valid as i128 {
        out.push(Warning::WrongObjectCount);
    }
    let ghost count = out@;
    let pairs: usize = nums.len() / 2;
    let mut i: usize = 0;
    assert(out@ =~= count + skipped_entries(nums@, 0, first as nat, len as nat));
    while i < pairs
        invariant
            i <= pairs,
            pairs == nums@.len() / 2,
            nums@.len() <= usize::MAX,
            out@ == count + skipped_entries(nums@, i as nat, first as nat, len as nat),
        decreases pairs - i,
    {
        assert(2 * i + 1 < nums@.len());
        let ghost before = skipped_entries(nums@, i as nat, first as nat, len as nat);
        match (nums[2 * i], nums[2 * i + 1]) {
            (Some(id), Some(offset)) => {
                let absolute: u128 = first as u128 + offset as u128;
                if absolute >= len as u128 {
                    out.push(Warning::OffsetOutOfBounds(id));
                    assert(out@ =~= count + before.push(Warning::OffsetOutOfBounds(id)));
                }
            },
            _ => {},
        }
        i += 1;
    }
    out
}

} // verus!
