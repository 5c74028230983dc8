//! Text as sequences of characters: conversion and slicing by character.

use vstd::prelude::*;
use vstd::string::*;

verus! {

/// The characters of `s`.
pub fn chars_of(s: &str) -> (res: Vec<char>)
    ensures
        res@ == s@,
{
    let mut out: Vec<char> = Vec::new();
    for c in it: s.chars()
        invariant
            it.seq() == s@,
            out@ == s@.take(it.index()),
    {
        out.push(c);
        assert(out@ =~= s@.take(it.index() + 1));
    }
    assert(out@ =~= s@);
    out
}

/// `String::push` of the standard library: the string with `c` appended.
#[verifier::external_body]
fn push_char(s: &mut String, c: char)
    ensures
        final(s)@ == old(s)@.push(c),
{
    s.push(c);
}

/// The string that holds `chars`.
pub fn string_of(chars: &Vec<char>) -> (res: String)
    ensures
        res@ == chars@,
{
    let mut out = String::new();
    let mut i: usize = 0;
    while i < chars.len()
        invariant
            i <= chars.len(),
            out@ == chars@.take(i as int),
        decreases chars.len() - i,
    {
        push_char(&mut out, chars[i]);
        i += 1;
        assert(out@ =~= chars@.take(i as int));
    }
    assert(out@ =~= chars@);
    out
}

/// The characters of `s` from `start` on, `len` of them and at least one, as
/// far as there are that many; nothing where `start` is past the end.
pub open spec fn substr_spec(s: Seq<char>, start: nat, len: nat) -> Seq<char> {
    if start >= s.len() {
        Seq::empty()
    } else {
        let wanted: nat = if len == 0 {
            1
        } else {
            len
        };
        let end: nat = if start + wanted < s.len() {
            start + wanted
        } else {
            s.len()
        };
        s.subrange(start as int, end as int)
    }
}

/// The characters of `s` from `start` on; nothing where `start` is past the end.
pub open spec fn substring_spec(s: Seq<char>, start: nat) -> Seq<char> {
    if start >= s.len() {
        Seq::empty()
    } else {
        s.subrange(start as int, s.len() as int)
    }
}

/// The part of `s` that starts at character `start` and holds `len`
/// characters, cut short at the end of `s`. A `len` of 0 counts as 1.
pub fn substr(s: &str, start: usize, len: usize) -> (res: &str)
    ensures
        res@ == substr_spec(s@, start as nat, len as nat),
{
    let n = s.unicode_len();
    if start >= n {
        let empty = s.substring_char(0, 0);
        assert(empty@ =~= Seq::<char>::empty());
        return empty;
    }
    let wanted: usize = if len == 0 {
        1
    } else {
        len
    };
    let end: usize = if wanted < n - start {
        start + wanted
    } else {
        n
    };
    s.substring_char(start, end)
}

/// The part of `s` from character `start` on.
pub fn substring(s: &str, start: usize) -> (res: &str)
    ensures
        res@ == substring_spec(s@, start as nat),
{
    let n = s.unicode_len();
    if start >= n {
        let empty = s.substring_char(0, 0);
        assert(empty@ =~= Seq::<char>::empty());
        return empty;
    }
    s.substring_char(start, n)
}

} // verus!
