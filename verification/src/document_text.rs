//! Text extraction and substitution on the pages of a document.

use vstd::prelude::*;
use vstd::string::*;
use crate::content::{clone_operations, Content};
use crate::diagnostics::Warning;
use crate::document::{
    chunks_of_pages, joined, replace_target, with_content, with_page, Document,
};
use crate::error::Error;
use crate::extract::{
    chunk_views, extract_text_chunks_with_warnings, extraction_warnings, page_chunks,
};
use crate::replace::{
    replace_in_operations_with_warnings, replace_warnings, replaced_page, Mode,
};
use crate::search::clamped;

verus! {

/// The default that exact replacement falls back on: no text.
pub open spec fn exact_default(default_str: Option<&str>) -> Seq<char> {
    match default_str {
        Some(text) => text@,
        None => Seq::empty(),
    }
}

/// The default that partial replacement falls back on: a question mark.
pub open spec fn partial_default(default_char: Option<&str>) -> Seq<char> {
    match default_char {
        Some(text) => text@,
        None => seq!['?'],
    }
}

impl Document {
    /// The text chunks of page `page_number`: `PageNumberNotFound` where
    /// the document has no such page, and the error that ended the pass
    /// over the page where one did.
    pub fn extract_text_chunks_from_page(&self, page_number: u32) -> (res: Result<
        Vec<Result<String, Error>>,
        Error,
    >)
        ensures
            match res {
                Ok(chunks) => 1 <= page_number <= self@.pages.len() && page_chunks(
                    self@.pages[page_number - 1].fonts,
                    self@.pages[page_number - 1].content,
                ) == Ok::<Seq<Result<Seq<char>, Error>>, Error>(chunk_views(chunks@)),
                Err(e) => if 1 <= page_number <= self@.pages.len() {
                    page_chunks(
                        self@.pages[page_number - 1].fonts,
                        self@.pages[page_number - 1].content,
                    ) == Err::<Seq<Result<Seq<char>, Error>>, Error>(e)
                } else {
                    e == Error::PageNumberNotFound(page_number)
                },
            },
    {
        self.extract_text_chunks_from_page_with_warnings(page_number).0
    }

    /// The text chunks of page `page_number` as
    /// [`Document::extract_text_chunks_from_page`] gives them, and with them
    /// what the pass over the page passed over: each text-showing operation
    /// whose text was dropped because no encoding was active.
    pub fn extract_text_chunks_from_page_with_warnings(&self, page_number: u32) -> (res: (
        Result<Vec<Result<String, Error>>, Error>,
        Vec<Warning>,
    ))
        ensures
            match res.0 {
                Ok(chunks) => 1 <= page_number <= self@.pages.len() && page_chunks(
                    self@.pages[page_number - 1].fonts,
                    self@.pages[page_number - 1].content,
                ) == Ok::<Seq<Result<Seq<char>, Error>>, Error>(chunk_views(chunks@)),
                Err(e) => if 1 <= page_number <= self@.pages.len() {
                    page_chunks(
                        self@.pages[page_number - 1].fonts,
                        self@.pages[page_number - 1].content,
                    ) == Err::<Seq<Result<Seq<char>, Error>>, Error>(e)
                } else {
                    e == Error::PageNumberNotFound(page_number)
                },
            },
            res.1@ == if 1 <= page_number <= self@.pages.len() {
                extraction_warnings(
                    self@.pages[page_number - 1].fonts,
                    self@.pages[page_number - 1].content,
                    self@.pages[page_number - 1].content.len(),
                )
            } else {
                Seq::empty()
            },
    {
        if page_number == 0 || (page_number - 1) as usize >= self.pages.len() {
            return (Err(Error::PageNumberNotFound(page_number)), Vec::new());
        }
        let page = &self.pages[(page_number - 1) as usize];
        extract_text_chunks_with_warnings(&page.fonts, &page.content.operations)
    }

    /// The text chunks of the pages `page_numbers`, page after page. A page
    /// that the document lacks, and a page whose pass ended with an error,
    /// give that one error.
    pub fn extract_text_chunks(&self, page_numbers: &[u32]) -> (res: Vec<Result<String, Error>>)
        ensures
            chunk_views(res@) == chunks_of_pages(self@, page_numbers@, page_numbers@.len()),
    {
        let mut out: Vec<Result<String, Error>> = Vec::new();
        let mut i: usize = 0;
        assert(chunk_views(out@) =~= chunks_of_pages(self@, page_numbers@, 0));
        while i < page_numbers.len()
            invariant
                i <= page_numbers.len(),
                chunk_views(out@) == chunks_of_pages(self@, page_numbers@, i as nat),
            decreases page_numbers.len() - i,
        {
            let ghost before = chunk_views(out@);
            match self.extract_text_chunks_from_page(page_numbers[i]) {
                Ok(mut chunks) => {
                    let ghost more = chunk_views(chunks@);
                    out.append(&mut chunks);
                    assert(chunk_views(out@) =~= before + more);
                },
                Err(e) => {
                    out.push(Err(e));
                    assert(chunk_views(out@) =~= before + seq![
                        Err::<Seq<char>, Error>(e),
                    ]);
                },
            }
            i += 1;
        }
        out
    }

    /// The text of the pages `page_numbers`: their chunks joined, or the
    /// first error among them.
    pub fn extract_text(&self, page_numbers: &[u32]) -> (res: Result<String, Error>)
        ensures
            ({
                let chunks = chunks_of_pages(self@, page_numbers@, page_numbers@.len());
                match res {
                    Ok(text) => joined(chunks, chunks.len()) == Ok::<Seq<char>, Error>(text@),
                    Err(e) => joined(chunks, chunks.len()) == Err::<Seq<char>, Error>(e),
                }
            }),
    {
        let fragments = self.extract_text_chunks(page_numbers);
        let ghost chunks = chunk_views(fragments@);
        let mut text = String::new();
        let mut i: usize = 0;
        while i < fragments.len()
            invariant
                i <= fragments.len(),
                chunks == chunk_views(fragments@),
                chunks == chunks_of_pages(self@, page_numbers@, page_numbers@.len()),
                joined(chunks, i as nat) == Ok::<Seq<char>, Error>(text@),
            decreases fragments.len() - i,
        {
            assert(chunks[i as int] == match fragments@[i as int] {
                Ok(text) => Ok::<Seq<char>, Error>(text@),
                Err(e) => Err(e),
            });
            match &fragments[i] {
                Ok(fragment) => {
                    text.append(fragment.as_str());
                },
                Err(e) => {
                    proof {
                        lemma_joined_failed(chunks, (i + 1) as nat, chunks.len());
                    }
                    return Err(*e);
                },
            }
            i += 1;
        }
        Ok(text)
    }

    /// A replacing pass over the page `page_number`, with what it passed
    /// over. In exact mode the page takes the changed content; in partial
    /// mode it takes it only where something was replaced.
    fn replace_on_page(
        &mut self,
        mode: Mode,
        page_number: u32,
        search: &str,
        replacement: &str,
        default: &str,
    ) -> (res: (Result<usize, Error>, Vec<Warning>))
        ensures
            ({
                let at = replace_target(page_number);
                if at >= old(self)@.pages.len() {
                    res.0 == Err::<usize, Error>(Error::PageNumberNotFound(page_number)) && final(self)@
                        == old(self)@ && res.1@ == Seq::<Warning>::empty()
                } else {
                    let page = old(self)@.pages[at];
                    &&& res.1@ == replace_warnings(
                        mode,
                        page.fonts,
                        page.content,
                        search@,
                        replacement@,
                        default@,
                    )
                    &&& match replaced_page(
                        mode,
                        page.fonts,
                        page.content,
                        search@,
                        replacement@,
                        default@,
                    ) {
                        Ok((done, count)) => res.0 == Ok::<usize, Error>(clamped(count)) && final(self)@ == (if mode == Mode::Exact || count > 0 {
                            with_page(old(self)@, at, with_content(page, done))
                        } else {
                            old(self)@
                        }),
                        Err(e) => res.0 == Err::<usize, Error>(e) && final(self)@ == old(self)@,
                    }
                }
            }),
    {
        let at: usize = if page_number == 0 {
            0
        } else {
            (page_number - 1) as usize
        };
        if at >= self.pages.len() {
            return (Err(Error::PageNumberNotFound(page_number)), Vec::new());
        }
        let operations = clone_operations(&self.pages[at].content.operations);
        let (result, warnings) = replace_in_operations_with_warnings(
            mode,
            &self.pages[at].fonts,
            operations,
            search,
            replacement,
            default,
        );
        match result {
            Ok((changed, count)) => {
                if mode == Mode::Exact || count > 0 {
                    let ghost done = Content { operations: changed }@;
                    self.pages[at].content = Content { operations: changed };
                    assert(self@.pages =~= old(self)@.pages.update(
                        at as int,
                        with_content(old(self)@.pages[at as int], done),
                    ));
                }
                (Ok(count), warnings)
            },
            Err(e) => (Err(e), warnings),
        }
    }

    /// A replacing pass over page `page_number` in the given mode, as
    /// [`Document::replace_text`] and [`Document::replace_partial_text`]
    /// make it, which returns with the number of occurrences what was
    /// passed over: each font of the page whose encoding did not resolve,
    /// and each text-showing operation that was left as it is because no
    /// encoding was active. Without a default, exact mode falls back on no
    /// text and partial mode on a question mark.
    pub fn replace_with_warnings(
        &mut self,
        mode: Mode,
        page_number: u32,
        search_text: &str,
        replacement_text: &str,
        default: Option<&str>,
    ) -> (res: (Result<usize, Error>, Vec<Warning>))
        ensures
            ({
                let at = replace_target(page_number);
                let fallback = if mode == Mode::Exact {
                    exact_default(default)
                } else {
                    partial_default(default)
                };
                if at >= old(self)@.pages.len() {
                    res.0 == Err::<usize, Error>(Error::PageNumberNotFound(page_number)) && final(self)@
                        == old(self)@ && res.1@ == Seq::<Warning>::empty()
                } else {
                    let page = old(self)@.pages[at];
                    &&& res.1@ == replace_warnings(
                        mode,
                        page.fonts,
                        page.content,
                        search_text@,
                        replacement_text@,
                        fallback,
                    )
                    &&& match replaced_page(
                        mode,
                        page.fonts,
                        page.content,
                        search_text@,
                        replacement_text@,
                        fallback,
                    ) {
                        Ok((done, count)) => res.0 == Ok::<usize, Error>(clamped(count)) && final(self)@ == (if mode == Mode::Exact || count > 0 {
                            with_page(old(self)@, at, with_content(page, done))
                        } else {
                            old(self)@
                        }),
                        Err(e) => res.0 == Err::<usize, Error>(e) && final(self)@ == old(self)@,
                    }
                }
            }),
    {
        let fallback: &str = match default {
            Some(given) => given,
            None => match mode {
                Mode::Exact => {
                    proof {
                        reveal_strlit("");
                    }
                    assert(""@ =~= Seq::<char>::empty());
                    ""
                },
                Mode::Partial => {
                    proof {
                        reveal_strlit("?");
                    }
                    assert("?"@ =~= seq!['?']);
                    "?"
                },
            },
        };
        self.replace_on_page(mode, page_number, search_text, replacement_text, fallback)
    }

    /// Replaces on page `page_number` every operand that shows exactly
    /// `text` by `other_text`, with `default_str` in place of a character
    /// that the font lacks. On an error the page stays as it was.
    pub fn replace_text(
        &mut self,
        page_number: u32,
        text: &str,
        other_text: &str,
        default_str: Option<&str>,
    ) -> (res: Result<(), Error>)
        ensures
            ({
                let at = replace_target(page_number);
                if at >= old(self)@.pages.len() {
                    res == Err::<(), Error>(Error::PageNumberNotFound(page_number)) && final(self)@
                        == old(self)@
                } else {
                    let page = old(self)@.pages[at];
                    match replaced_page(
                        Mode::Exact,
                        page.fonts,
                        page.content,
                        text@,
                        other_text@,
                        exact_default(default_str),
                    ) {
                        Ok((done, _)) => res is Ok && final(self)@ == with_page(
                            old(self)@,
                            at,
                            with_content(page, done),
                        ),
                        Err(e) => res == Err::<(), Error>(e) && final(self)@ == old(self)@,
                    }
                }
            }),
    {
        match self.replace_with_warnings(Mode::Exact, page_number, text, other_text, default_str).0 {
            Ok(_) => Ok(()),
            Err(e) => Err(e),
        }
    }

    /// Replaces on page `page_number` every occurrence of `search_text`
    /// within a shown string by `replacement_text`, with `default_char` in
    /// place of a character that the font lacks, and returns the number of
    /// occurrences replaced, as far as the machine can count. The page takes
    /// the changed content only where something was replaced; on an error
    /// it stays as it was.
    pub fn replace_partial_text(
        &mut self,
        page_number: u32,
        search_text: &str,
        replacement_text: &str,
        default_char: Option<&str>,
    ) -> (res: Result<usize, Error>)
        ensures
            ({
                let at = replace_target(page_number);
                if at >= old(self)@.pages.len() {
                    res == Err::<usize, Error>(Error::PageNumberNotFound(page_number)) && final(self)@
                        == old(self)@
                } else {
                    let page = old(self)@.pages[at];
                    match replaced_page(
                        Mode::Partial,
                        page.fonts,
                        page.content,
                        search_text@,
                        replacement_text@,
                        partial_default(default_char),
                    ) {
                        Ok((done, count)) => res == Ok::<usize, Error>(clamped(count)) && final(self)@ == (if count > 0 {
                            with_page(old(self)@, at, with_content(page, done))
                        } else {
                            old(self)@
                        }),
                        Err(e) => res == Err::<usize, Error>(e) && final(self)@ == old(self)@,
                    }
                }
            }),
    {
        self.replace_with_warnings(
            Mode::Partial,
            page_number,
            search_text,
            replacement_text,
            default_char,
        ).0
    }
}

/// Once the joining has met an error, further chunks change nothing.
pub proof fn lemma_joined_failed(chunks: Seq<Result<Seq<char>, Error>>, k: nat, n: nat)
    requires
        k <= n <= chunks.len(),
        joined(chunks, k) is Err,
    ensures
        joined(chunks, n) == joined(chunks, k),
    decreases n,
{
    if k < n {
        lemma_joined_failed(chunks, k, (n - 1) as nat);
    }
}

} // verus!
