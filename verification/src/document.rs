//! A document as the text engines see it: its pages in order, each with its
//! fonts, its content and its external objects, and the indirect objects
//! added to it.

use vstd::prelude::*;
use vstd::string::*;
use crate::content::{Content, Operation, OperationView};
use crate::dictionary::dict_set;
use crate::error::Error;
use crate::extract::page_chunks;
use crate::font::{font_views, Font, FontView};
use crate::object::{Dictionary, Object, ObjectId, ObjectView, Real};

verus! {

/// One page.
#[derive(Debug)]
pub struct Page {
    /// The id of the page object.
    pub id: ObjectId,
    /// The font resources of the page.
    pub fonts: Vec<Font>,
    /// The page program.
    pub content: Content,
    /// The external objects of the page, each a reference under its name.
    pub xobjects: Dictionary,
}

/// A document: pages in reading order, page `n` being the `n`-th of them
/// counted from 1.
#[derive(Debug)]
pub struct Document {
    pub pages: Vec<Page>,
    /// The indirect objects added to the document, in the order of adding.
    pub objects: Vec<(ObjectId, Object)>,
    /// The largest object number in use.
    pub max_id: u32,
}

/// The mathematical value of a [`Page`].
pub struct PageView {
    pub id: ObjectId,
    pub fonts: Seq<FontView>,
    pub content: Seq<OperationView>,
    pub xobjects: Seq<(Seq<u8>, ObjectView)>,
}

/// The mathematical value of a [`Document`].
pub struct DocumentView {
    pub pages: Seq<PageView>,
    pub objects: Seq<(ObjectId, ObjectView)>,
    pub max_id: u32,
}

impl View for Page {
    type V = PageView;

    open spec fn view(&self) -> PageView {
        PageView {
            id: self.id,
            fonts: font_views(self.fonts@),
            content: self.content@,
            xobjects: self.xobjects@,
        }
    }
}

/// The values of a sequence of pages.
pub open spec fn page_views(pages: Seq<Page>) -> Seq<PageView> {
    Seq::new(pages.len(), |i: int| pages[i]@)
}

/// The values of a sequence of added objects.
pub open spec fn added_views(objects: Seq<(ObjectId, Object)>) -> Seq<(ObjectId, ObjectView)> {
    Seq::new(objects.len(), |i: int| (objects[i].0, objects[i].1@))
}

impl View for Document {
    type V = DocumentView;

    open spec fn view(&self) -> DocumentView {
        DocumentView {
            pages: page_views(self.pages@),
            objects: added_views(self.objects@),
            max_id: self.max_id,
        }
    }
}

/// The place of the first page with the id `id`, or the number of pages
/// where there is none.
pub open spec fn page_find(pages: Seq<PageView>, id: ObjectId) -> int
    decreases pages.len(),
{
    if pages.len() == 0 {
        0
    } else if pages[0].id == id {
        0
    } else {
        1 + page_find(pages.drop_first(), id)
    }
}

/// `page_find` is the least place whose page has the id.
pub proof fn lemma_page_find(pages: Seq<PageView>, id: ObjectId, i: int)
    requires
        0 <= i <= pages.len(),
        forall|k: int| 0 <= k < i ==> pages[k].id != id,
        i < pages.len() ==> pages[i].id == id,
    ensures
        page_find(pages, id) == i,
    decreases pages.len(),
{
    if pages.len() > 0 && i > 0 {
        let rest = pages.drop_first();
        assert forall|k: int| 0 <= k < i - 1 implies rest[k].id != id by {
            assert(rest[k] == pages[k + 1]);
        }
        lemma_page_find(rest, id, i - 1);
    }
}

/// The document with `page` in place of its page at `at`.
pub open spec fn with_page(doc: DocumentView, at: int, page: PageView) -> DocumentView {
    DocumentView { pages: doc.pages.update(at, page), objects: doc.objects, max_id: doc.max_id }
}

/// The page with `content` as its program.
pub open spec fn with_content(page: PageView, content: Seq<OperationView>) -> PageView {
    PageView { id: page.id, fonts: page.fonts, content, xobjects: page.xobjects }
}

/// The document with `object` added under the next object number.
pub open spec fn with_object(doc: DocumentView, object: ObjectView) -> DocumentView {
    DocumentView {
        pages: doc.pages,
        objects: doc.objects.push((((doc.max_id + 1) as u32, 0u16), object)),
        max_id: (doc.max_id + 1) as u32,
    }
}

/// What the chunks of page `number` are: those of its content; the one
/// error that ended its pass; or `PageNumberNotFound` where the document
/// has no such page.
pub open spec fn chunks_of_page(doc: DocumentView, number: u32) -> Seq<Result<Seq<char>, Error>> {
    if 1 <= number <= doc.pages.len() {
        let page = doc.pages[number - 1];
        match page_chunks(page.fonts, page.content) {
            Ok(chunks) => chunks,
            Err(e) => seq![Err(e)],
        }
    } else {
        seq![Err(Error::PageNumberNotFound(number))]
    }
}

/// The chunks of the first `n` of the requested pages, page after page.
pub open spec fn chunks_of_pages(doc: DocumentView, numbers: Seq<u32>, n: nat) -> Seq<
    Result<Seq<char>, Error>,
>
    decreases n,
{
    if n == 0 || n > numbers.len() {
        Seq::empty()
    } else {
        chunks_of_pages(doc, numbers, (n - 1) as nat) + chunks_of_page(doc, numbers[n - 1])
    }
}

/// The text of the first `n` chunks joined, or the first error among them.
pub open spec fn joined(chunks: Seq<Result<Seq<char>, Error>>, n: nat) -> Result<Seq<char>, Error>
    decreases n,
{
    if n == 0 || n > chunks.len() {
        Ok(Seq::empty())
    } else {
        match joined(chunks, (n - 1) as nat) {
            Err(e) => Err(e),
            Ok(text) => match chunks[n - 1] {
                Ok(chunk) => Ok(text + chunk),
                Err(e) => Err(e),
            },
        }
    }
}

/// The page that a replacement on page `number` works on: pages count from
/// 1, and 0 stands for the first page too.
pub open spec fn replace_target(number: u32) -> int {
    if number == 0 {
        0
    } else {
        number - 1
    }
}

/// The decimal digits of `n`.
pub open spec fn decimal(n: nat) -> Seq<u8>
    decreases n,
{
    if n < 10 {
        seq![(0x30 + n) as u8]
    } else {
        decimal(n / 10).push((0x30 + n % 10) as u8)
    }
}

/// The resource name of the external object with number `n`: `X` and the
/// number in decimal digits.
pub open spec fn xobject_name(n: u32) -> Seq<u8> {
    seq![0x58u8] + decimal(n as nat)
}

/// The operations that draw an image: save the graphics state, set the
/// transformation from `size` and `position`, invoke the image by `name`,
/// restore the graphics state.
pub open spec fn image_operations(name: Seq<u8>, position: (Real, Real), size: (Real, Real)) -> Seq<
    OperationView,
> {
    seq![
        OperationView { operator: seq!['q'], operands: Seq::empty() },
        OperationView {
            operator: seq!['c', 'm'],
            operands: seq![
                ObjectView::Real(size.0),
                ObjectView::Integer(0),
                ObjectView::Integer(0),
                ObjectView::Real(size.1),
                ObjectView::Real(position.0),
                ObjectView::Real(position.1),
            ],
        },
        OperationView { operator: seq!['D', 'o'], operands: seq![ObjectView::Name(name)] },
        OperationView { operator: seq!['Q'], operands: Seq::empty() },
    ]
}

/// The program of a page around a form: the state saved before everything
/// that was there, restored after it, and the form invoked by `name`.
pub open spec fn form_operations(content: Seq<OperationView>, name: Seq<u8>) -> Seq<OperationView> {
    (seq![OperationView { operator: seq!['q'], operands: Seq::empty() }] + content).push(
        OperationView { operator: seq!['Q'], operands: Seq::empty() },
    ).push(OperationView { operator: seq!['D', 'o'], operands: seq![ObjectView::Name(name)] })
}

impl Clone for Page {
    fn clone(&self) -> (res: Self)
        ensures
            res@ == self@,
    {
        let mut fonts: Vec<Font> = Vec::new();
        let mut i: usize = 0;
        while i < self.fonts.len()
            invariant
                i <= self.fonts.len(),
                fonts@.len() == i,
                forall|k: int| 0 <= k < i ==> (#[trigger] fonts@[k])@ == self.fonts@[k]@,
            decreases self.fonts.len() - i,
        {
            fonts.push(self.fonts[i].clone());
            i += 1;
        }
        assert(font_views(fonts@) =~= font_views(self.fonts@));
        Page {
            id: self.id,
            fonts,
            content: self.content.clone(),
            xobjects: self.xobjects.clone(),
        }
    }
}

/// An operation without operands.
pub fn bare_operation(operator: &str) -> (res: Operation)
    ensures
        res@ == (OperationView { operator: operator@, operands: Seq::empty() }),
{
    let res = Operation::new(operator, Vec::new());
    assert(res@.operands =~= Seq::<ObjectView>::empty());
    res
}

/// The decimal digits of `n`.
pub fn decimal_digits(n: u32) -> (res: Vec<u8>)
    ensures
        res@ == decimal(n as nat),
    decreases n,
{
    if n < 10 {
        let mut out: Vec<u8> = Vec::new();
        out.push(0x30 + n as u8);
        assert(out@ =~= decimal(n as nat));
        out
    } else {
        let mut out = decimal_digits(n / 10);
        out.push(0x30 + (n % 10) as u8);
        out
    }
}

/// The resource name of the external object with number `n`.
pub fn name_of_xobject(n: u32) -> (res: Vec<u8>)
    ensures
        res@ == xobject_name(n),
{
    let mut out: Vec<u8> = Vec::new();
    out.push(0x58);
    let mut digits = decimal_digits(n);
    out.append(&mut digits);
    assert(out@ =~= xobject_name(n));
    out
}

impl Document {
    /// A document without pages and objects.
    pub fn new() -> (res: Document)
        ensures
            res@ == (DocumentView { pages: Seq::empty(), objects: Seq::empty(), max_id: 0 }),
    {
        let res = Document { pages: Vec::new(), objects: Vec::new(), max_id: 0 };
        assert(res@.pages =~= Seq::<PageView>::empty());
        assert(res@.objects =~= Seq::<(ObjectId, ObjectView)>::empty());
        res
    }

    /// The place of the first page with the id `page_id`.
    pub fn find_page(&self, page_id: ObjectId) -> (res: usize)
        ensures
            res == page_find(self@.pages, page_id),
            res <= self@.pages.len(),
    {
        let mut i: usize = 0;
        while i < self.pages.len()
            invariant
                i <= self.pages@.len(),
                forall|k: int| 0 <= k < i ==> self@.pages[k].id != page_id,
            decreases self.pages.len() - i,
        {
            if self.pages[i].id.0 == page_id.0 && self.pages[i].id.1 == page_id.1 {
                proof {
                    lemma_page_find(self@.pages, page_id, i as int);
                }
                return i;
            }
            i += 1;
        }
        proof {
            lemma_page_find(self@.pages, page_id, i as int);
        }
        i
    }

    /// Adds `object` under the next object number and returns its id.
    pub fn add_object(&mut self, object: Object) -> (res: ObjectId)
        requires
            old(self).max_id < u32::MAX,
        ensures
            res == ((old(self).max_id + 1) as u32, 0u16),
            final(self)@ == with_object(old(self)@, object@),
    {
        self.max_id = self.max_id + 1;
        let id: ObjectId = (self.max_id, 0);
        self.objects.push((id, object));
        assert(self@.objects =~= old(self)@.objects.push((id, object@)));
        id
    }

    /// The first object that was added under `id`.
    pub fn get_object(&self, id: ObjectId) -> (res: Result<&Object, Error>)
        ensures
            match res {
                Ok(object) => exists|i: int|
                    0 <= i < self@.objects.len() && #[trigger] self@.objects[i] == (id, object@)
                        && forall|k: int| 0 <= k < i ==> (#[trigger] self@.objects[k]).0 != id,
                Err(e) => e == Error::ObjectNotFound(id.0, id.1) && forall|k: int|
                    0 <= k < self@.objects.len() ==> (#[trigger] self@.objects[k]).0 != id,
            },
    {
        let mut i: usize = 0;
        while i < self.objects.len()
            invariant
                i <= self.objects@.len(),
                forall|k: int| 0 <= k < i ==> (#[trigger] self@.objects[k]).0 != id,
            decreases self.objects.len() - i,
        {
            if self.objects[i].0.0 == id.0 && self.objects[i].0.1 == id.1 {
                assert(self@.objects[i as int] == (id, self.objects@[i as int].1@));
                return Ok(&self.objects[i].1);
            }
            i += 1;
        }
        Err(Error::ObjectNotFound(id.0, id.1))
    }

    /// Puts `content` in place of the program of the page `page_id`.
    pub fn change_page_content(&mut self, page_id: ObjectId, content: Content) -> (res: Result<
        (),
        Error,
    >)
        ensures
            ({
                let at = page_find(old(self)@.pages, page_id);
                if at < old(self)@.pages.len() {
                    res is Ok && final(self)@ == with_page(
                        old(self)@,
                        at,
                        with_content(old(self)@.pages[at], content@),
                    )
                } else {
                    res == Err::<(), Error>(Error::PageNotFound(page_id.0, page_id.1)) && final(self)@ == old(self)@
                }
            }),
    {
        let at = self.find_page(page_id);
        if at >= self.pages.len() {
            return Err(Error::PageNotFound(page_id.0, page_id.1));
        }
        self.pages[at].content = content;
        assert(self@.pages =~= old(self)@.pages.update(
            at as int,
            with_content(old(self)@.pages[at as int], content@),
        ));
        Ok(())
    }

    /// Binds `name` to the object `id` among the external objects of the
    /// page `page_id`.
    pub fn add_xobject(&mut self, page_id: ObjectId, name: Vec<u8>, id: ObjectId) -> (res: Result<
        (),
        Error,
    >)
        ensures
            ({
                let at = page_find(old(self)@.pages, page_id);
                if at < old(self)@.pages.len() {
                    let page = old(self)@.pages[at];
                    res is Ok && final(self)@ == with_page(
                        old(self)@,
                        at,
                        PageView {
                            id: page.id,
                            fonts: page.fonts,
                            content: page.content,
                            xobjects: dict_set(page.xobjects, name@, ObjectView::Reference(id)),
                        },
                    )
                } else {
                    res == Err::<(), Error>(Error::PageNotFound(page_id.0, page_id.1)) && final(self)@ == old(self)@
                }
            }),
    {
        let at = self.find_page(page_id);
        if at >= self.pages.len() {
            return Err(Error::PageNotFound(page_id.0, page_id.1));
        }
        self.pages[at].xobjects.set(name, Object::Reference(id));
        assert(self@.pages =~= old(self)@.pages.update(
            at as int,
            PageView {
                id: old(self)@.pages[at as int].id,
                fonts: old(self)@.pages[at as int].fonts,
                content: old(self)@.pages[at as int].content,
                xobjects: dict_set(
                    old(self)@.pages[at as int].xobjects,
                    name@,
                    ObjectView::Reference(id),
                ),
            },
        ));
        Ok(())
    }

    /// Get decoded page content.
    pub fn get_and_decode_page_content(&self, page_id: ObjectId) -> (res: Result<Content, Error>)
        ensures
            ({
                let at = page_find(self@.pages, page_id);
                match res {
                    Ok(content) => at < self@.pages.len() && content@ == self@.pages[at].content,
                    Err(e) => at >= self@.pages.len() && e == Error::PageNotFound(
                        page_id.0,
                        page_id.1,
                    ),
                }
            }),
    {
        let at = self.find_page(page_id);
        if at >= self.pages.len() {
            return Err(Error::PageNotFound(page_id.0, page_id.1));
        }
        Ok(self.pages[at].content.clone())
    }

    /// Add content to a page. All existing content will be unchanged.
    pub fn add_to_page_content(&mut self, page_id: ObjectId, content: Content) -> (res: Result<
        (),
        Error,
    >)
        ensures
            ({
                let at = page_find(old(self)@.pages, page_id);
                if at < old(self)@.pages.len() {
                    res is Ok && final(self)@ == with_page(
                        old(self)@,
                        at,
                        with_content(
                            old(self)@.pages[at],
                            old(self)@.pages[at].content + content@,
                        ),
                    )
                } else {
                    res == Err::<(), Error>(Error::PageNotFound(page_id.0, page_id.1)) && final(self)@ == old(self)@
                }
            }),
    {
        let at = self.find_page(page_id);
        if at >= self.pages.len() {
            return Err(Error::PageNotFound(page_id.0, page_id.1));
        }
        let mut more = content.operations;
        self.pages[at].content.operations.append(&mut more);
        assert(self@.pages[at as int].content =~= old(self)@.pages[at as int].content + content@);
        assert(self@.pages =~= old(self)@.pages.update(
            at as int,
            with_content(
                old(self)@.pages[at as int],
                old(self)@.pages[at as int].content + content@,
            ),
        ));
        Ok(())
    }
}

} // verus!
