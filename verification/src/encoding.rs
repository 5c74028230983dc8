//! A font's encoding: the table between the bytes of a string operand and
//! the characters that they show.

use vstd::prelude::*;
use vstd::string::*;
use crate::error::Error;
use crate::text::{chars_of, string_of};

verus! {

/// A table with one character for a byte: entry `b` is what byte `b` shows.
/// A byte without an entry, or past the end of the table, shows nothing.
#[derive(Debug)]
pub struct Encoding {
    pub table: Vec<Option<char>>,
}

impl View for Encoding {
    type V = Seq<Option<char>>;

    open spec fn view(&self) -> Seq<Option<char>> {
        self.table@
    }
}

/// The character that byte `b` shows.
pub open spec fn char_of(table: Seq<Option<char>>, b: u8) -> Option<char> {
    if b < table.len() {
        table[b as int]
    } else {
        None
    }
}

/// The text that `bytes` show: one character for each byte, and none at all
/// where some byte shows nothing.
pub open spec fn decoded(table: Seq<Option<char>>, bytes: Seq<u8>) -> Option<Seq<char>> {
    if forall|i: int| 0 <= i < bytes.len() ==> char_of(table, bytes[i]) is Some {
        Some(Seq::new(bytes.len(), |i: int| char_of(table, bytes[i])->Some_0))
    } else {
        None
    }
}

/// The first place in the table that holds `c`, or the table's length where
/// none does.
pub open spec fn table_find(table: Seq<Option<char>>, c: char) -> int
    decreases table.len(),
{
    if table.len() == 0 {
        0
    } else if table[0] == Some(c) {
        0
    } else {
        1 + table_find(table.drop_first(), c)
    }
}

/// The byte that shows `c`: the first one that the table gives it.
pub open spec fn byte_of(table: Seq<Option<char>>, c: char) -> Option<u8> {
    let at = table_find(table, c);
    if at < table.len() && at < 256 {
        Some(at as u8)
    } else {
        None
    }
}

/// The bytes that show `text`: one for each character, and none at all
/// where the table lacks some character.
pub open spec fn encoded(table: Seq<Option<char>>, text: Seq<char>) -> Seq<u8> {
    if forall|i: int| 0 <= i < text.len() ==> byte_of(table, text[i]) is Some {
        Seq::new(text.len(), |i: int| byte_of(table, text[i])->Some_0)
    } else {
        Seq::empty()
    }
}

/// `table_find` is the least place that holds the character.
pub proof fn lemma_table_find(table: Seq<Option<char>>, c: char, i: int)
    requires
        0 <= i <= table.len(),
        forall|k: int| 0 <= k < i ==> table[k] != Some(c),
        i < table.len() ==> table[i] == Some(c),
    ensures
        table_find(table, c) == i,
    decreases table.len(),
{
    if table.len() > 0 && i > 0 {
        let rest = table.drop_first();
        assert forall|k: int| 0 <= k < i - 1 implies rest[k] != Some(c) by {
            assert(rest[k] == table[k + 1]);
        }
        lemma_table_find(rest, c, i - 1);
    }
}

/// What `table_find` returns lies in the table or at its end, and no place
/// before it holds the character.
pub proof fn lemma_table_find_bounds(table: Seq<Option<char>>, c: char)
    ensures
        0 <= table_find(table, c) <= table.len(),
        forall|k: int| 0 <= k < table_find(table, c) ==> table[k] != Some(c),
        table_find(table, c) < table.len() ==> table[table_find(table, c)] == Some(c),
    decreases table.len(),
{
    if table.len() > 0 && table[0] != Some(c) {
        let rest = table.drop_first();
        lemma_table_find_bounds(rest, c);
        assert forall|k: int| 0 <= k < table_find(table, c) implies table[k] != Some(c) by {
            if k > 0 {
                assert(rest[k - 1] == table[k]);
            }
        }
    }
}

/// Text that the table can show reads back as it was written.
pub proof fn lemma_decode_encoded(table: Seq<Option<char>>, text: Seq<char>)
    requires
        forall|i: int| 0 <= i < text.len() ==> byte_of(table, text[i]) is Some,
    ensures
        decoded(table, encoded(table, text)) == Some(text),
{
    let bytes = encoded(table, text);
    assert forall|i: int| 0 <= i < bytes.len() implies char_of(table, bytes[i]) == Some(
        text[i],
    ) by {
        lemma_table_find_bounds(table, text[i]);
    }
    assert(decoded(table, bytes)->Some_0 =~= text);
}

impl Clone for Encoding {
    fn clone(&self) -> (res: Self)
        ensures
            res@ == self@,
    {
        let table = self.table.clone();
        assert(table@ =~= self.table@);
        Encoding { table }
    }
}

impl Encoding {
    /// The encoding in which byte `b` shows the character with code `b`.
    pub fn latin1() -> (res: Encoding)
        ensures
            res@.len() == 256,
            forall|b: u8| char_of(res@, b) == Some(b as char),
    {
        let mut table: Vec<Option<char>> = Vec::new();
        let mut b: u8 = 0;
        while table.len() < 256
            invariant
                table@.len() == b || (table@.len() == 256 && b == 255),
                table@.len() <= 256,
                forall|k: int| 0 <= k < table@.len() ==> table@[k] == Some((k as u8) as char),
            decreases 256 - table.len(),
        {
            table.push(Some(b as char));
            if b < 255 {
                b += 1;
            }
        }
        Encoding { table }
    }

    /// The character that byte `b` shows.
    fn lookup(&self, b: u8) -> (res: Option<char>)
        ensures
            res == char_of(self@, b),
    {
        if (b as usize) < self.table.len() {
            self.table[b as usize]
        } else {
            None
        }
    }

    /// The byte that shows `c`.
    fn position(&self, c: char) -> (res: Option<u8>)
        ensures
            res == byte_of(self@, c),
    {
        let mut i: usize = 0;
        while i < self.table.len() && i < 256
            invariant
                i <= self.table@.len(),
                i <= 256,
                forall|k: int| 0 <= k < i ==> self@[k] != Some(c),
            decreases self.table.len() - i,
        {
            match self.table[i] {
                Some(held) => {
                    if held == c {
                        proof {
                            lemma_table_find(self@, c, i as int);
                        }
                        return Some(i as u8);
                    }
                },
                None => {},
            }
            i += 1;
        }
        proof {
            lemma_table_find_bounds(self@, c);
        }
        None
    }

    /// The characters that `bytes` show.
    pub fn decode_chars(&self, bytes: &[u8]) -> (res: Option<Vec<char>>)
        ensures
            match res {
                Some(text) => decoded(self@, bytes@) == Some(text@),
                None => decoded(self@, bytes@) is None,
            },
    {
        let mut out: Vec<char> = Vec::new();
        let mut i: usize = 0;
        while i < bytes.len()
            invariant
                i <= bytes.len(),
                out@.len() == i,
                forall|k: int| 0 <= k < i ==> char_of(self@, bytes@[k]) == Some(#[trigger] out@[k]),
            decreases bytes.len() - i,
        {
            match self.lookup(bytes[i]) {
                Some(c) => {
                    out.push(c);
                },
                None => {
                    return None;
                },
            }
            i += 1;
        }
        proof {
            assert forall|k: int| 0 <= k < bytes@.len() implies char_of(self@, bytes@[k])
                == Some(out@[k]) by {
                assert(char_of(self@, bytes@[k]) == Some(out@[k]));
            }
            assert(decoded(self@, bytes@)->Some_0 =~= out@);
        }
        Some(out)
    }

    /// The text that `bytes` show; `CharacterEncoding` where some byte shows
    /// nothing.
    pub fn decode(&self, bytes: &[u8]) -> (res: Result<String, Error>)
        ensures
            match res {
                Ok(text) => decoded(self@, bytes@) == Some(text@),
                Err(e) => e == Error::CharacterEncoding && decoded(self@, bytes@) is None,
            },
    {
        match self.decode_chars(bytes) {
            Some(chars) => Ok(string_of(&chars)),
            None => Err(Error::CharacterEncoding),
        }
    }

    /// The bytes that show `text`; no bytes where the table lacks some
    /// character of it.
    pub fn encode_chars(&self, text: &Vec<char>) -> (res: Vec<u8>)
        ensures
            res@ == encoded(self@, text@),
    {
        let mut out: Vec<u8> = Vec::new();
        let mut i: usize = 0;
        while i < text.len()
            invariant
                i <= text.len(),
                out@.len() == i,
                forall|k: int| 0 <= k < i ==> byte_of(self@, text@[k]) == Some(#[trigger] out@[k]),
            decreases text.len() - i,
        {
            match self.position(text[i]) {
                Some(b) => {
                    out.push(b);
                },
                None => {
                    return Vec::new();
                },
            }
            i += 1;
        }
        proof {
            assert forall|k: int| 0 <= k < text@.len() implies byte_of(self@, text@[k]) == Some(
                out@[k],
            ) by {
                assert(byte_of(self@, text@[k]) == Some(out@[k]));
            }
            assert(out@ =~= encoded(self@, text@));
        }
        out
    }

    /// The bytes that show `text`; no bytes where the table lacks some
    /// character of it.
    pub fn encode(&self, text: &str) -> (res: Vec<u8>)
        ensures
            res@ == encoded(self@, text@),
    {
        let chars = chars_of(text);
        self.encode_chars(&chars)
    }
}

} // verus!
