//! Adding images and forms to the content of a page.

use vstd::prelude::*;
use vstd::string::*;
use crate::content::{Operation, OperationView};
use crate::dictionary::dict_set;
use crate::document::{
    bare_operation, form_operations, image_operations, name_of_xobject, page_find, with_object,
    xobject_name, Document, DocumentView, PageView,
};
use crate::error::Error;
use crate::object::{copy_bytes, Object, ObjectId, ObjectView, Real, Stream};

verus! {

/// The document with the external object `id` bound under `name` on its
/// page at `at`, and `content` as that page's program.
pub open spec fn with_xobject_and_content(
    doc: DocumentView,
    at: int,
    name: Seq<u8>,
    id: ObjectId,
    content: Seq<OperationView>,
) -> DocumentView {
    let page = doc.pages[at];
    DocumentView {
        pages: doc.pages.update(
            at,
            PageView {
                id: page.id,
                fonts: page.fonts,
                content,
                xobjects: dict_set(page.xobjects, name, ObjectView::Reference(id)),
            },
        ),
        objects: doc.objects,
        max_id: doc.max_id,
    }
}

/// The operation that invokes the external object `name`.
fn invoke_operation(name: Vec<u8>) -> (res: Operation)
    ensures
        res@ == (OperationView { operator: seq!['D', 'o'], operands: seq![ObjectView::Name(name@)] }),
{
    let mut operands: Vec<Object> = Vec::new();
    operands.push(Object::Name(name));
    proof {
        reveal_strlit("Do");
    }
    let res = Operation::new("Do", operands);
    assert(res@.operator =~= seq!['D', 'o']);
    assert(res@.operands =~= seq![ObjectView::Name(name@)]);
    res
}

/// The operation that sets the transformation for an image of `size` at
/// `position`.
fn transform_operation(position: (Real, Real), size: (Real, Real)) -> (res: Operation)
    ensures
        res@ == image_operations(Seq::empty(), position, size)[1],
{
    let mut operands: Vec<Object> = Vec::new();
    operands.push(Object::Real(size.0));
    operands.push(Object::Integer(0));
    operands.push(Object::Integer(0));
    operands.push(Object::Real(size.1));
    operands.push(Object::Real(position.0));
    operands.push(Object::Real(position.1));
    proof {
        reveal_strlit("cm");
    }
    let res = Operation::new("cm", operands);
    assert(res@.operator =~= seq!['c', 'm']);
    assert(res@.operands =~= image_operations(Seq::empty(), position, size)[1].operands);
    res
}

impl Document {
    /// Adds `img_object` to the document and draws it on the page
    /// `page_id`, `size` wide and high, at `position`: the image is bound
    /// under a name made from its object number, and the operations that
    /// draw it are appended to the page's content. The object is added even
    /// where the document has no such page.
    pub fn insert_image(
        &mut self,
        page_id: ObjectId,
        img_object: Stream,
        position: (Real, Real),
        size: (Real, Real),
    ) -> (res: Result<(), Error>)
        requires
            old(self).max_id < u32::MAX,
        ensures
            ({
                let added = with_object(old(self)@, ObjectView::Stream(img_object@));
                let id = (added.max_id, 0u16);
                let name = xobject_name(added.max_id);
                let at = page_find(old(self)@.pages, page_id);
                if at < old(self)@.pages.len() {
                    res is Ok && final(self)@ == with_xobject_and_content(
                        added,
                        at,
                        name,
                        id,
                        old(self)@.pages[at].content + image_operations(name, position, size),
                    )
                } else {
                    res == Err::<(), Error>(Error::PageNotFound(page_id.0, page_id.1)) && final(self)@
                        == added
                }
            }),
    {
        let id = self.add_object(Object::Stream(img_object));
        let ghost added = self@;
        let name = name_of_xobject(id.0);
        let at = self.find_page(page_id);
        if at >= self.pages.len() {
            return Err(Error::PageNotFound(page_id.0, page_id.1));
        }
        self.pages[at].xobjects.set(copy_bytes(&name), Object::Reference(id));
        proof {
            reveal_strlit("q");
            reveal_strlit("Q");
        }
        let save = bare_operation("q");
        let transform = transform_operation(position, size);
        let invoke = invoke_operation(name);
        let restore = bare_operation("Q");
        assert(save@.operator =~= seq!['q']);
        assert(restore@.operator =~= seq!['Q']);
        self.pages[at].content.operations.push(save);
        self.pages[at].content.operations.push(transform);
        self.pages[at].content.operations.push(invoke);
        self.pages[at].content.operations.push(restore);
        proof {
            let wanted = with_xobject_and_content(
                added,
                at as int,
                name@,
                id,
                added.pages[at as int].content + image_operations(name@, position, size),
            );
            assert(self@.pages[at as int].content =~= wanted.pages[at as int].content);
            assert(self@.pages =~= wanted.pages);
        }
        Ok(())
    }

    /// Adds `form_obj` to the document and draws it on the page `page_id`:
    /// the graphics state is saved before the page's content and restored
    /// after it, the form is invoked, and it is bound under a name made
    /// from its object number. The object is added even where the document
    /// has no such page.
    pub fn insert_form_object(&mut self, page_id: ObjectId, form_obj: Stream) -> (res: Result<
        (),
        Error,
    >)
        requires
            old(self).max_id < u32::MAX,
        ensures
            ({
                let added = with_object(old(self)@, ObjectView::Stream(form_obj@));
                let id = (added.max_id, 0u16);
                let name = xobject_name(added.max_id);
                let at = page_find(old(self)@.pages, page_id);
                if at < old(self)@.pages.len() {
                    res is Ok && final(self)@ == with_xobject_and_content(
                        added,
                        at,
                        name,
                        id,
                        form_operations(old(self)@.pages[at].content, name),
                    )
                } else {
                    res == Err::<(), Error>(Error::PageNotFound(page_id.0, page_id.1)) && final(self)@
                        == added
                }
            }),
    {
        let id = self.add_object(Object::Stream(form_obj));
        let ghost added = self@;
        let name = name_of_xobject(id.0);
        let at = self.find_page(page_id);
        if at >= self.pages.len() {
            return Err(Error::PageNotFound(page_id.0, page_id.1));
        }
        proof {
            reveal_strlit("q");
            reveal_strlit("Q");
        }
        let save = bare_operation("q");
        let restore = bare_operation("Q");
        let invoke = invoke_operation(copy_bytes(&name));
        assert(save@.operator =~= seq!['q']);
        assert(restore@.operator =~= seq!['Q']);
        self.pages[at].content.operations.insert(0, save);
        self.pages[at].content.operations.push(restore);
        self.pages[at].content.operations.push(invoke);
        self.pages[at].xobjects.set(name, Object::Reference(id));
        proof {
            let wanted = with_xobject_and_content(
                added,
                at as int,
                name@,
                id,
                form_operations(added.pages[at as int].content, name@),
            );
            assert(self@.pages[at as int].content =~= wanted.pages[at as int].content);
            assert(self@.pages =~= wanted.pages);
        }
        Ok(())
    }
}

} // verus!
