//! The fonts of a page: resource names with the encodings they resolve to.

use vstd::prelude::*;
use crate::encoding::Encoding;
use crate::error::Error;
use crate::object::{bytes_eq, copy_bytes};

verus! {

/// A font resource of a page: the name that set-font operators use, and the
/// font's encoding or the error that resolving it gave.
#[derive(Debug)]
pub struct Font {
    pub name: Vec<u8>,
    pub encoding: Result<Encoding, Error>,
}

/// The mathematical value of a [`Font`].
pub struct FontView {
    pub name: Seq<u8>,
    pub encoding: Result<Seq<Option<char>>, Error>,
}

impl View for Font {
    type V = FontView;

    open spec fn view(&self) -> FontView {
        FontView {
            name: self.name@,
            encoding: match self.encoding {
                Ok(encoding) => Ok(encoding@),
                Err(e) => Err(e),
            },
        }
    }
}

/// The values of a sequence of fonts.
pub open spec fn font_views(fonts: Seq<Font>) -> Seq<FontView> {
    Seq::new(fonts.len(), |i: int| fonts[i]@)
}

/// Whether a font can be used under `name`: it has that name and its
/// encoding resolved.
pub open spec fn serves(font: FontView, name: Seq<u8>) -> bool {
    font.name == name && font.encoding is Ok
}

/// The place of the first font that serves `name`, or the number of fonts
/// where none does.
pub open spec fn font_find(fonts: Seq<FontView>, name: Seq<u8>) -> int
    decreases fonts.len(),
{
    if fonts.len() == 0 {
        0
    } else if serves(fonts[0], name) {
        0
    } else {
        1 + font_find(fonts.drop_first(), name)
    }
}

/// The encoding that `name` selects: that of the first font that serves it.
pub open spec fn resolved_encoding(fonts: Seq<FontView>, name: Seq<u8>) -> Option<
    Seq<Option<char>>,
> {
    let at = font_find(fonts, name);
    if at < fonts.len() {
        Some(fonts[at].encoding->Ok_0)
    } else {
        None
    }
}

/// The errors of the first `n` fonts whose encoding did not resolve, in order.
pub open spec fn font_errors(fonts: Seq<FontView>, n: nat) -> Seq<Error>
    decreases n,
{
    if n == 0 || n > fonts.len() {
        Seq::empty()
    } else {
        let before = font_errors(fonts, (n - 1) as nat);
        match fonts[n - 1].encoding {
            Ok(_) => before,
            Err(e) => before.push(e),
        }
    }
}

/// `font_find` is the least place whose font serves the name.
pub proof fn lemma_font_find(fonts: Seq<FontView>, name: Seq<u8>, i: int)
    requires
        0 <= i <= fonts.len(),
        forall|k: int| 0 <= k < i ==> !serves(fonts[k], name),
        i < fonts.len() ==> serves(fonts[i], name),
    ensures
        font_find(fonts, name) == i,
    decreases fonts.len(),
{
    if fonts.len() > 0 && i > 0 {
        let rest = fonts.drop_first();
        assert forall|k: int| 0 <= k < i - 1 implies !serves(rest[k], name) by {
            assert(rest[k] == fonts[k + 1]);
        }
        lemma_font_find(rest, name, i - 1);
    }
}

impl Clone for Font {
    fn clone(&self) -> (res: Self)
        ensures
            res@ == self@,
    {
        Font {
            name: copy_bytes(&self.name),
            encoding: match &self.encoding {
                Ok(encoding) => Ok(encoding.clone()),
                Err(e) => Err(*e),
            },
        }
    }
}

/// The encoding that `name` selects among `fonts`.
pub fn find_encoding<'a>(fonts: &'a Vec<Font>, name: &[u8]) -> (res: Option<&'a Encoding>)
    ensures
        match res {
            Some(encoding) => resolved_encoding(font_views(fonts@), name@) == Some(encoding@),
            None => resolved_encoding(font_views(fonts@), name@) is None,
        },
{
    let mut i: usize = 0;
    while i < fonts.len()
        invariant
            i <= fonts.len(),
            forall|k: int| 0 <= k < i ==> !serves(font_views(fonts@)[k], name@),
        decreases fonts.len() - i,
    {
        if bytes_eq(fonts[i].name.as_slice(), name) {
            match &fonts[i].encoding {
                Ok(encoding) => {
                    proof {
                        lemma_font_find(font_views(fonts@), name@, i as int);
                    }
                    return Some(encoding);
                },
                Err(_) => {},
            }
        }
        i += 1;
    }
    proof {
        lemma_font_find(font_views(fonts@), name@, i as int);
    }
    None
}

} // verus!
