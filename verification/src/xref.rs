//! The cross-reference index: where each numbered object is stored.

use vstd::prelude::*;
use std::collections::BTreeMap;
use vstd::std_specs::btree::spec_btree_map_iter;
use vstd::std_specs::iter::IteratorSpec;

verus! {

/// How a cross-reference section was written.
#[derive(Clone, Copy, Debug, PartialEq, Eq, Structural)]
pub enum XrefType {
    CrossReferenceStream,
    CrossReferenceTable,
}

/// Where one numbered object is stored.
#[derive(Clone, Copy, Debug, PartialEq, Eq, Structural)]
pub enum XrefEntry {
    /// The number is not in use.
    Free,
    /// The object starts `offset` bytes into the document.
    Normal { offset: u64, generation: u16 },
    /// The object is the `index`-th object packed in the object stream `container`.
    Compressed { container: u32, index: u16 },
}

/// A cross-reference section: at most one entry for each object number.
#[derive(Debug)]
pub struct Xref {
    pub cross_reference_type: XrefType,
    pub entries: BTreeMap<u32, XrefEntry>,
    pub size: u32,
}

/// The mathematical value of an [`Xref`].
pub struct XrefView {
    pub cross_reference_type: XrefType,
    pub entries: Map<u32, XrefEntry>,
    pub size: u32,
}

impl View for Xref {
    type V = XrefView;

    open spec fn view(&self) -> XrefView {
        XrefView {
            cross_reference_type: self.cross_reference_type,
            entries: self.entries@,
            size: self.size,
        }
    }
}

impl Xref {
    /// A section without entries.
    pub fn new(size: u32, cross_reference_type: XrefType) -> (res: Xref)
        ensures
            res@ == (XrefView { cross_reference_type, entries: Map::empty(), size }),
    {
        Xref { cross_reference_type, entries: BTreeMap::new(), size }
    }

    /// The entry of object number `id`.
    pub fn get(&self, id: u32) -> (res: Option<XrefEntry>)
        ensures
            res == if self@.entries.contains_key(id) {
                Some(self@.entries[id])
            } else {
                None
            },
    {
        match self.entries.get(&id) {
            Some(entry) => Some(*entry),
            None => None,
        }
    }

    /// Records `entry` for object number `id`, in place of an earlier entry
    /// for that number.
    pub fn insert(&mut self, id: u32, entry: XrefEntry)
        ensures
            final(self)@ == (XrefView { entries: old(self)@.entries.insert(id, entry), ..old(self)@ }),
    {
        self.entries.insert(id, entry);
    }

    /// Lays this section over an earlier one: every entry of `earlier` for
    /// a number that this section does not know is taken over, and where
    /// both know a number, the entry of this section stands.
    pub fn merge(&mut self, earlier: &Xref)
        ensures
            final(self)@ == (XrefView {
                entries: earlier@.entries.union_prefer_right(old(self)@.entries),
                ..old(self)@
            }),
    {
        let ghost mine = self.entries@;
        let ghost theirs = earlier.entries@;
        for entry in it: earlier.entries.iter()
            invariant
                it.seq() == spec_btree_map_iter(&earlier.entries).remaining(),
                theirs == earlier.entries@,
                self.cross_reference_type == old(self).cross_reference_type,
                self.size == old(self).size,
                forall|k: u32| #[trigger]
                    self.entries@.contains_key(k) <==> mine.contains_key(k) || exists|j: int|
                        0 <= j < it.index() && *(#[trigger] it.seq()[j]).0 == k,
                forall|k: u32| #[trigger]
                    self.entries@.contains_key(k) ==> self.entries@[k] == if mine.contains_key(k) {
                        mine[k]
                    } else {
                        theirs[k]
                    },
        {
            let ghost i = it.index();
            let ghost before = self.entries@;
            assert(theirs.contains_key(*entry.0) && theirs[*entry.0] == *entry.1);
            if !self.entries.contains_key(entry.0) {
                self.entries.insert(*entry.0, *entry.1);
            }
            proof {
                assert forall|k: u32| #[trigger]
                    self.entries@.contains_key(k) <==> mine.contains_key(k) || exists|j: int|
                        0 <= j < i + 1 && *(#[trigger] it.seq()[j]).0 == k by {
                    if k == *entry.0 {
                        assert(*it.seq()[i].0 == k);
                    } else if before.contains_key(k) && !mine.contains_key(k) {
                        let j = choose|j: int| 0 <= j < i && *(#[trigger] it.seq()[j]).0 == k;
                        assert(0 <= j < i + 1 && *it.seq()[j].0 == k);
                    }
                }
            }
        }
        proof {
            let all = spec_btree_map_iter(&earlier.entries).remaining();
            let wanted = theirs.union_prefer_right(mine);
            assert forall|k: u32| #[trigger]
                self.entries@.contains_key(k) == wanted.contains_key(k) by {
                if theirs.contains_key(k) {
                    assert(all.contains((&k, &theirs[k])));
                    let j = choose|j: int| 0 <= j < all.len() && all[j] == (&k, &theirs[k]);
                    assert(*all[j].0 == k);
                }
                if self.entries@.contains_key(k) && !mine.contains_key(k) {
                    let j = choose|j: int| 0 <= j < all.len() && *(#[trigger] all[j]).0 == k;
                    assert(theirs.contains_key(*all[j].0));
                }
            }
            assert(self.entries@ =~= wanted);
        }
    }

    /// The number of entries.
    pub fn len(&self) -> (res: usize)
        ensures
            res == self@.entries.len(),
    {
        self.entries.len()
    }
}

} // verus!
